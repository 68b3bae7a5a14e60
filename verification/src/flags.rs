//! Small value readers and flag edits shared by several record kinds: the
//! low flag byte of a value cleared throughout, a value's `u32` reading,
//! and a zero-terminated string compared ignoring ASCII case.
use vstd::prelude::*;
use vstd::string::StringSliceAdditionalSpecFns;
use crate::bytes::{le32, read_u32_le};
use crate::effects::Fo76Fo4Hook;
use crate::model::{code, lemma_list_view, lemma_struct_view, named_view, sig_is, values_view, EntryView, FieldEntry,
    FieldValue, FieldView, Record, RecordView, Sym};
use crate::text::{bytes_eq_ignore_case, eq_ignore_case, lit, StringInterner};

verus! {

/// `flag` cleared from an integer, from the first byte, and from every item
/// and member of lists and structs.
pub open spec fn low_flag_cleared(v: FieldView, flag: u8) -> FieldView
    decreases v,
{
    match v {
        FieldView::Uint(n) => FieldView::Uint(n & !(flag as u64)),
        FieldView::Int(n) => FieldView::Int(n & !(flag as i64)),
        FieldView::Bytes(b) => if b.len() > 0 {
            FieldView::Bytes(b.update(0, b[0] & !flag))
        } else {
            v
        },
        FieldView::List(items) => FieldView::List(cleared_items(items, flag)),
        FieldView::Struct(members) => FieldView::Struct(cleared_members(members, flag)),
        _ => v,
    }
}

/// `low_flag_cleared` on every item.
pub open spec fn cleared_items(s: Seq<FieldView>, flag: u8) -> Seq<FieldView>
    decreases s,
{
    if s.len() == 0 {
        s
    } else {
        seq![low_flag_cleared(s[0], flag)] + cleared_items(s.subrange(1, s.len() as int), flag)
    }
}

/// `low_flag_cleared` on every member's value.
pub open spec fn cleared_members(s: Seq<(Sym, FieldView)>, flag: u8) -> Seq<(Sym, FieldView)>
    decreases s,
{
    if s.len() == 0 {
        s
    } else {
        seq![(s[0].0, low_flag_cleared(s[0].1, flag))] + cleared_members(s.subrange(1, s.len() as int), flag)
    }
}

/// Clear `flag` from a value's low flag byte, throughout.
pub fn clear_low_byte_flag(value: &mut FieldValue, flag: u8)
    ensures
        final(value)@ == low_flag_cleared(old(value)@, flag),
    decreases *old(value),
{
    let ghost v0 = *value;
    match value {
        FieldValue::Uint(n) => {
            *n = *n & !(flag as u64);
        },
        FieldValue::Int(n) => {
            *n = *n & !(flag as i64);
        },
        FieldValue::Bytes(bytes) => {
            if bytes.len() > 0 {
                let b0 = bytes[0] & !flag;
                bytes.set(0, b0);
            }
        },
        FieldValue::List(items) => {
            proof {
                lemma_list_view(v0);
            }
            let ghost all = *items;
            let ghost s0 = values_view(all@);
            let mut rest: Vec<FieldValue> = Vec::new();
            std::mem::swap(items, &mut rest);
            let n = rest.len();
            let mut done: Vec<FieldValue> = Vec::new();
            let mut i: usize = 0;
            assert(s0.subrange(0, s0.len() as int) =~= s0);
            while i < n
                invariant
                    n == all@.len(),
                    s0 == values_view(all@),
                    s0.len() == n,
                    i <= n,
                    rest@.len() == n - i,
                    forall|j: int| 0 <= j < rest@.len() ==> rest@[j] == all@[i + j],
                    values_view(done@) + cleared_items(s0.subrange(i as int, n as int), flag) == cleared_items(s0, flag),
                    v0 == FieldValue::List(all),
                    v0 == *old(value),
                decreases n - i,
            {
                let mut item = rest.remove(0);
                assert(item == all@[i as int]);
                proof {
                    assert(decreases_to!(v0 => v0->List_0));
                    assert(decreases_to!(all => all@));
                    assert(decreases_to!(all@ => all@[i as int]));
                    let t = s0.subrange(i as int, n as int);
                    assert(t[0] == s0[i as int]);
                    assert(t.subrange(1, t.len() as int) =~= s0.subrange(i + 1, n as int));
                }
                let ghost before = values_view(done@);
                clear_low_byte_flag(&mut item, flag);
                done.push(item);
                assert(values_view(done@) =~= before.push(low_flag_cleared(s0[i as int], flag)));
                assert(values_view(done@) + cleared_items(s0.subrange(i + 1, n as int), flag) =~= before + (seq![
                    low_flag_cleared(s0[i as int], flag),
                ] + cleared_items(s0.subrange(i + 1, n as int), flag)));
                i = i + 1;
            }
            assert(cleared_items(s0.subrange(n as int, n as int), flag) =~= Seq::<FieldView>::empty());
            assert(values_view(done@) + Seq::<FieldView>::empty() =~= values_view(done@));
            *items = done;
            proof {
                lemma_list_view(*value);
            }
        },
        FieldValue::Struct(fields) => {
            proof {
                lemma_struct_view(v0);
            }
            let ghost all = *fields;
            let ghost s0 = named_view(all@);
            let mut rest: Vec<(Sym, FieldValue)> = Vec::new();
            std::mem::swap(fields, &mut rest);
            let n = rest.len();
            let mut done: Vec<(Sym, FieldValue)> = Vec::new();
            let mut i: usize = 0;
            assert(s0.subrange(0, s0.len() as int) =~= s0);
            while i < n
                invariant
                    n == all@.len(),
                    s0 == named_view(all@),
                    s0.len() == n,
                    i <= n,
                    rest@.len() == n - i,
                    forall|j: int| 0 <= j < rest@.len() ==> rest@[j] == all@[i + j],
                    named_view(done@) + cleared_members(s0.subrange(i as int, n as int), flag) == cleared_members(s0, flag),
                    v0 == FieldValue::Struct(all),
                    v0 == *old(value),
                decreases n - i,
            {
                let (name, mut item) = rest.remove(0);
                assert((name, item) == all@[i as int]);
                proof {
                    assert(decreases_to!(v0 => v0->Struct_0));
                    assert(decreases_to!(all => all@));
                    assert(decreases_to!(all@ => all@[i as int]));
                    assert(decreases_to!(all@[i as int] => all@[i as int].1));
                    let t = s0.subrange(i as int, n as int);
                    assert(t[0] == s0[i as int]);
                    assert(t.subrange(1, t.len() as int) =~= s0.subrange(i + 1, n as int));
                }
                let ghost before = named_view(done@);
                clear_low_byte_flag(&mut item, flag);
                done.push((name, item));
                assert(named_view(done@) =~= before.push((s0[i as int].0, low_flag_cleared(s0[i as int].1, flag))));
                assert(named_view(done@) + cleared_members(s0.subrange(i + 1, n as int), flag) =~= before + (seq![
                    (s0[i as int].0, low_flag_cleared(s0[i as int].1, flag)),
                ] + cleared_members(s0.subrange(i + 1, n as int), flag)));
                i = i + 1;
            }
            assert(cleared_members(s0.subrange(n as int, n as int), flag) =~= Seq::<(Sym, FieldView)>::empty());
            assert(named_view(done@) + Seq::<(Sym, FieldView)>::empty() =~= named_view(done@));
            *fields = done;
            proof {
                lemma_struct_view(*value);
            }
        },
        _ => {},
    }
}

/// A leveled list with its "use all" flag (`0x04` of `LVLF`) cleared.
pub open spec fn use_all_cleared(r: RecordView) -> RecordView {
    RecordView {
        fields: r.fields.map_values(
            |e: EntryView|
                if e.sig == code('L', 'V', 'L', 'F') {
                    EntryView { value: low_flag_cleared(e.value, 4), ..e }
                } else {
                    e
                },
        ),
        ..r
    }
}

impl Fo76Fo4Hook {
    /// Clear the "use all" flag of every `LVLF`.
    pub fn clear_leveled_list_use_all(record: &mut Record)
        ensures
            final(record)@ == use_all_cleared(old(record)@),
    {
        let ghost r0 = record@;
        let ghost orig = r0.fields;
        let mut rest: Vec<FieldEntry> = Vec::new();
        core::mem::swap(&mut record.fields, &mut rest);
        let n = rest.len();
        let mut idx: usize = 0;
        while idx < n
            invariant
                orig.len() == n,
                idx <= n,
                rest@.len() == n - idx,
                forall|j: int| 0 <= j < rest@.len() ==> rest@[j]@ == orig[idx + j],
                record.fields@.len() == idx,
                forall|j: int| 0 <= j < idx ==> #[trigger] record.fields@[j]@ == (if orig[j].sig == code('L', 'V', 'L', 'F') {
                    EntryView { value: low_flag_cleared(orig[j].value, 4), ..orig[j] }
                } else {
                    orig[j]
                }),
                record@.sig == r0.sig,
                record@.form_key == r0.form_key,
                record@.eid == r0.eid,
            decreases n - idx,
        {
            let e = rest.remove(0);
            let FieldEntry { sig, value } = e;
            let mut value = value;
            if sig_is(sig.0, 'L', 'V', 'L', 'F') {
                clear_low_byte_flag(&mut value, 4);
            }
            record.fields.push(FieldEntry { sig: sig, value: value });
            idx = idx + 1;
        }
        assert(record@.fields =~= use_all_cleared(r0).fields);
    }
}

/// A value's `u32` reading: an integer truncated to 32 bits, four leading
/// bytes, or a struct's first member's reading.
pub open spec fn u32_reading(v: FieldView) -> Option<u32>
    decreases v,
{
    match v {
        FieldView::Uint(n) => Some(n as u32),
        FieldView::Int(n) => Some(n as u32),
        FieldView::Bytes(b) => if b.len() >= 4 { Some(le32(b, 0)) } else { None },
        FieldView::Struct(m) => if m.len() > 0 { u32_reading(m[0].1) } else { None },
        _ => None,
    }
}

/// A value's `u32` reading.
pub fn u32_field_value(value: &FieldValue) -> (r: Option<u32>)
    ensures
        r == u32_reading(value@),
    decreases value,
{
    match value {
        FieldValue::Uint(n) => Some(*n as u32),
        FieldValue::Int(n) => Some(*n as u32),
        FieldValue::Bytes(b) => if b.len() >= 4 { Some(read_u32_le(b.as_slice(), 0)) } else { None },
        FieldValue::Struct(fields) => {
            proof {
                lemma_struct_view(*value);
            }
            if fields.len() > 0 {
                proof {
                    let ghost all = value->Struct_0;
                    assert(decreases_to!(all => all@));
                    assert(decreases_to!(all@ => all@[0]));
                    assert(decreases_to!(all@[0] => all@[0].1));
                }
                u32_field_value(&fields[0].1)
            } else {
                None
            }
        },
        _ => None,
    }
}

/// Whether a value is the string `expected`, ignoring ASCII case: an
/// interned string, or bytes with at most one trailing NUL dropped.
pub open spec fn zstring_matches(interner: StringInterner, v: FieldView, expected: Seq<u8>) -> bool {
    match v {
        FieldView::String(s) => interner.spec_resolve(s) matches Some(t) && eq_ignore_case(t, expected),
        FieldView::Bytes(b) => {
            let t = if b.len() > 0 && b.last() == 0 { b.drop_last() } else { b };
            eq_ignore_case(t, expected)
        },
        _ => false,
    }
}

/// Whether a value is the string `expected`, ignoring ASCII case.
pub fn field_value_matches_zstring(interner: &StringInterner, value: &FieldValue, expected: &str) -> (r: bool)
    ensures
        r == zstring_matches(*interner, value@, expected.spec_bytes()),
{
    match value {
        FieldValue::String(s) => match interner.resolve(*s) {
            Some(t) => bytes_eq_ignore_case(t, lit(expected)),
            None => false,
        },
        FieldValue::Bytes(b) => {
            if b.len() > 0 && b[b.len() - 1] == 0 {
                let mut t: Vec<u8> = Vec::new();
                let mut i: usize = 0;
                while i + 1 < b.len()
                    invariant
                        i + 1 <= b@.len(),
                        t@ == b@.subrange(0, i as int),
                    decreases b.len() - i,
                {
                    t.push(b[i]);
                    assert(t@ =~= b@.subrange(0, i + 1));
                    i = i + 1;
                }
                assert(t@ =~= b@.drop_last());
                bytes_eq_ignore_case(t.as_slice(), lit(expected))
            } else {
                bytes_eq_ignore_case(b.as_slice(), lit(expected))
            }
        },
        _ => false,
    }
}

} // verus!
