//! Script attachments (`VMAD`) and workbench data at the byte level.
//!
//! A FO4 `VMAD` starts with its version (`u16`, 6), object format (`u16`,
//! 2) and script count (`u16`); names are `u16`-length-prefixed. A lone
//! propertyless script is `name`, a status byte and a property count of 0.
use vstd::prelude::*;
use vstd::string::StringSliceAdditionalSpecFns;
use crate::bytes::{le16, read_u16_le, splice, u16_bytes, write_u16_le};
use crate::effects::Fo76Fo4Hook;
use crate::fields::{find_sig, first_with_sig, has_sig};
use crate::furniture::{fo4_keyword_value, has_fo4_keyword};
use crate::model::{code, entries_view, lemma_struct_view, named_view, sig_is, EntryView, FieldEntry, FieldValue, FieldView,
    Record, RecordView, SubrecordSig, Sym};
use crate::text::{bytes_contains, bytes_eq_ignore_case, contains, eq_ignore_case, lit, StringInterner};

verus! {

/// A `u16`-length-prefixed string.
pub open spec fn vmad_string(s: Seq<u8>) -> Seq<u8> {
    u16_bytes(s.len() as u16) + s
}

fn push_vmad_string(bytes: &mut Vec<u8>, value: &[u8])
    ensures
        final(bytes)@ == old(bytes)@ + vmad_string(value@),
{
    let n = value.len() as u16;
    bytes.push((n % 256) as u8);
    bytes.push((n / 256) as u8);
    let mut i: usize = 0;
    let ghost base = old(bytes)@ + u16_bytes(n);
    assert(bytes@ =~= base);
    while i < value.len()
        invariant
            i <= value@.len(),
            bytes@ == base + value@.subrange(0, i as int),
        decreases value.len() - i,
    {
        bytes.push(value[i]);
        assert(bytes@ =~= base + value@.subrange(0, i + 1));
        i = i + 1;
    }
    assert(value@.subrange(0, value@.len() as int) =~= value@);
    assert(bytes@ =~= old(bytes)@ + vmad_string(value@));
}

/// Whether a script attachment holds `name` as a length-prefixed string.
pub open spec fn vmad_has_name(b: Seq<u8>, name: Seq<u8>) -> bool {
    contains(b, vmad_string(name))
}

/// Whether a script attachment holds `name` as a length-prefixed string.
pub fn vmad_contains_name(bytes: &[u8], name: &str) -> (r: bool)
    ensures
        r == vmad_has_name(bytes@, name.spec_bytes()),
{
    let mut needle: Vec<u8> = Vec::new();
    push_vmad_string(&mut needle, lit(name));
    bytes_contains(bytes, needle.as_slice())
}

/// The offset of the property count of a `VMAD` holding exactly one script,
/// named `script` (ignoring ASCII case), with no properties; nothing for
/// any other attachment.
pub open spec fn propertyless_script_offset(b: Seq<u8>, script: Seq<u8>) -> Option<int> {
    if b.len() < 11 || le16(b, 0) != 6 || le16(b, 2) != 2 || le16(b, 4) != 1 {
        None
    } else {
        let end = 8 + le16(b, 6) as int;
        let off = end + 1;
        if off + 2 != b.len() || !eq_ignore_case(b.subrange(8, end), script) || le16(b, off) != 0 {
            None
        } else {
            Some(off)
        }
    }
}

fn slice_bytes(s: &[u8], from: usize, to: usize) -> (r: Vec<u8>)
    requires
        from <= to <= s@.len(),
    ensures
        r@ == s@.subrange(from as int, to as int),
{
    let mut out: Vec<u8> = Vec::new();
    let mut i: usize = from;
    while i < to
        invariant
            from <= i <= to,
            to <= s@.len(),
            out@ == s@.subrange(from as int, i as int),
        decreases to - i,
    {
        out.push(s[i]);
        assert(out@ =~= s@.subrange(from as int, i + 1));
        i = i + 1;
    }
    out
}

/// The offset of the property count of a lone propertyless script named
/// `script_name`.
pub fn single_propertyless_vmad_script_property_count_offset(bytes: &[u8], script_name: &str) -> (r: Option<usize>)
    ensures
        match r {
            Some(off) => propertyless_script_offset(bytes@, script_name.spec_bytes()) == Some(off as int),
            None => propertyless_script_offset(bytes@, script_name.spec_bytes()) is None,
        },
{
    if bytes.len() < 11 || read_u16_le(bytes, 0) != 6 || read_u16_le(bytes, 2) != 2 || read_u16_le(bytes, 4) != 1 {
        return None;
    }
    let name_len = read_u16_le(bytes, 6) as usize;
    let name_end = 8 + name_len;
    let offset = name_end + 1;
    if offset + 2 != bytes.len() {
        return None;
    }
    let name = slice_bytes(bytes, 8, name_end);
    if !bytes_eq_ignore_case(name.as_slice(), lit(script_name)) {
        return None;
    }
    if read_u16_le(bytes, offset) != 0 {
        return None;
    }
    Some(offset)
}

/// A lone propertyless script given one string property: the count at
/// `off` set to 1, then the property's name, type 2 (string), status 1
/// (edited) and value.
pub open spec fn with_string_property(b: Seq<u8>, off: int, name: Seq<u8>, value: Seq<u8>) -> Seq<u8> {
    splice(b, off, u16_bytes(1)) + vmad_string(name) + seq![2u8, 1u8] + vmad_string(value)
}

/// Give the lone propertyless script whose property count sits at
/// `property_count_offset` one string property.
pub fn append_vmad_string_property(bytes: &mut Vec<u8>, property_count_offset: usize, name: &str, value: &str)
    requires
        property_count_offset + 2 <= old(bytes)@.len(),
    ensures
        final(bytes)@ == with_string_property(
            old(bytes)@,
            property_count_offset as int,
            name.spec_bytes(),
            value.spec_bytes(),
        ),
{
    write_u16_le(bytes, property_count_offset, 1);
    push_vmad_string(bytes, lit(name));
    bytes.push(2);
    bytes.push(1);
    let ghost mid = bytes@;
    push_vmad_string(bytes, lit(value));
    assert(bytes@ =~= with_string_property(
        old(bytes)@,
        property_count_offset as int,
        name.spec_bytes(),
        value.spec_bytes(),
    ));
}

/// An activator whose first `VMAD` is a lone propertyless
/// `Default1StateActivator` script, given FO76's default animation
/// (`Anim` = `Play01`); other records as they are.
pub open spec fn one_state_animation_ensured(r: RecordView) -> RecordView {
    if r.sig != code('A', 'C', 'T', 'I') {
        r
    } else {
        match first_with_sig(r.fields, code('V', 'M', 'A', 'D')) {
            Some(i) => match r.fields[i].value {
                FieldView::Bytes(b) => match propertyless_script_offset(b, "Default1StateActivator".spec_bytes()) {
                    Some(off) => RecordView {
                        fields: r.fields.update(
                            i,
                            EntryView {
                                value: FieldView::Bytes(
                                    with_string_property(b, off, "Anim".spec_bytes(), "Play01".spec_bytes()),
                                ),
                                ..r.fields[i]
                            },
                        ),
                        ..r
                    },
                    None => r,
                },
                _ => r,
            },
            None => r,
        }
    }
}

impl Fo76Fo4Hook {
    /// Give a lone propertyless `Default1StateActivator` script FO76's
    /// default animation, `Play01`.
    pub fn ensure_default_one_state_activator_animation(record: &mut Record)
        ensures
            final(record)@ == one_state_animation_ensured(old(record)@),
    {
        if !sig_is(record.sig.0, 'A', 'C', 'T', 'I') {
            return;
        }
        let i = match find_sig(&record.fields, crate::model::tag('V', 'M', 'A', 'D')) {
            Some(i) => i,
            None => return,
        };
        let ghost r0 = record@;
        assert(r0.fields[i as int] == record.fields@[i as int]@);
        let off = match &record.fields[i].value {
            FieldValue::Bytes(b) => single_propertyless_vmad_script_property_count_offset(
                b.as_slice(),
                "Default1StateActivator",
            ),
            _ => None,
        };
        let off = match off {
            Some(off) => off,
            None => return,
        };
        let mut fields: Vec<FieldEntry> = Vec::new();
        core::mem::swap(&mut record.fields, &mut fields);
        let mut entry = fields.remove(i);
        match &mut entry.value {
            FieldValue::Bytes(b) => {
                append_vmad_string_property(b, off, "Anim", "Play01");
            },
            _ => {},
        }
        fields.insert(i, entry);
        record.fields = fields;
        assert(record@.fields =~= one_state_animation_ensured(r0).fields);
    }
}

} // verus!

verus! {

/// Whether a member name resolves to `BenchType`, ignoring ASCII case.
pub open spec fn bench_name(interner: StringInterner, name: Sym) -> bool {
    interner.spec_resolve(name) matches Some(s) && eq_ignore_case(s, "BenchType".spec_bytes())
}

/// Whether workbench data names no bench type: no value, a zero low byte
/// (integer or first byte), empty bytes, or a struct whose first
/// `BenchType` member names none (or that has no such member).
pub open spec fn no_bench_type(interner: StringInterner, v: FieldView) -> bool
    decreases v,
{
    match v {
        FieldView::Null => true,
        FieldView::Uint(n) => n & 0xffu64 == 0,
        FieldView::Int(n) => n & 0xffi64 == 0,
        FieldView::Bytes(b) => b.len() == 0 || b[0] == 0,
        FieldView::Struct(m) => bench_members_none(interner, m),
        _ => false,
    }
}

/// Whether the first `BenchType` member, if any, names no bench type.
pub open spec fn bench_members_none(interner: StringInterner, s: Seq<(Sym, FieldView)>) -> bool
    decreases s,
{
    if s.len() == 0 {
        true
    } else if bench_name(interner, s[0].0) {
        no_bench_type(interner, s[0].1)
    } else {
        bench_members_none(interner, s.subrange(1, s.len() as int))
    }
}

/// Whether workbench data names no bench type.
pub fn workbench_data_has_no_bench_type(value: &FieldValue, interner: &StringInterner) -> (r: bool)
    ensures
        r == no_bench_type(*interner, value@),
    decreases value,
{
    match value {
        FieldValue::Null => true,
        FieldValue::Uint(n) => *n & 0xff == 0,
        FieldValue::Int(n) => *n & 0xff == 0,
        FieldValue::Bytes(b) => b.len() == 0 || b[0] == 0,
        FieldValue::Struct(fields) => {
            proof {
                lemma_struct_view(*value);
            }
            let ghost ms = named_view(fields@);
            assert(ms.subrange(0, ms.len() as int) =~= ms);
            let mut i: usize = 0;
            #[verifier::loop_isolation(false)]
            while i < fields.len()
                invariant
                    i <= fields.len(),
                    *value is Struct,
                    value->Struct_0 == *fields,
                    value@ == FieldView::Struct(ms),
                    ms == named_view(fields@),
                    bench_members_none(*interner, ms) == bench_members_none(*interner, ms.subrange(i as int, ms.len() as int)),
                decreases fields.len() - i,
            {
                let ghost t = ms.subrange(i as int, ms.len() as int);
                assert(t[0] == ms[i as int]);
                assert(t.subrange(1, t.len() as int) =~= ms.subrange(i + 1, ms.len() as int));
                let named = match interner.resolve(fields[i].0) {
                    Some(s) => bytes_eq_ignore_case(s, lit("BenchType")),
                    None => false,
                };
                if named {
                    proof {
                        let ghost all = value->Struct_0;
                        assert(decreases_to!(all => all@));
                        assert(decreases_to!(all@ => all@[i as int]));
                        assert(decreases_to!(all@[i as int] => all@[i as int].1));
                    }
                    return workbench_data_has_no_bench_type(&fields[i].1, interner);
                }
                i = i + 1;
            }
            assert(ms.subrange(i as int, ms.len() as int) =~= Seq::<(Sym, FieldView)>::empty());
            true
        },
        _ => false,
    }
}

/// A workbench without bench-type data: its `WBDT` entries naming no bench
/// type dropped; other records as they are.
pub open spec fn bench_data_dropped(interner: StringInterner, r: RecordView) -> RecordView {
    if r.sig == code('F', 'U', 'R', 'N') {
        RecordView {
            fields: r.fields.filter(|e: EntryView| !(e.sig == code('W', 'B', 'D', 'T') && no_bench_type(interner, e.value))),
            ..r
        }
    } else {
        r
    }
}

impl Fo76Fo4Hook {
    /// Drop the workbench data of furniture that names no bench type.
    pub fn drop_furniture_workbench_data_without_bench_type(interner: &StringInterner, record: &mut Record)
        ensures
            final(record)@ == bench_data_dropped(*interner, old(record)@),
    {
        if !sig_is(record.sig.0, 'F', 'U', 'R', 'N') {
            return;
        }
        let mut keep: Vec<bool> = Vec::new();
        let mut i: usize = 0;
        while i < record.fields.len()
            invariant
                i <= record.fields@.len(),
                keep@.len() == i,
                forall|j: int| 0 <= j < i ==> keep@[j] == !((#[trigger] record.fields@[j]@).sig == code('W', 'B', 'D', 'T')
                    && no_bench_type(*interner, record.fields@[j]@.value)),
            decreases record.fields@.len() - i,
        {
            let e = &record.fields[i];
            let drop = sig_is(e.sig.0, 'W', 'B', 'D', 'T') && workbench_data_has_no_bench_type(&e.value, interner);
            keep.push(!drop);
            i = i + 1;
        }
        crate::omod::keep_entries(
            &mut record.fields,
            &keep,
            Ghost(|e: EntryView| !(e.sig == code('W', 'B', 'D', 'T') && no_bench_type(*interner, e.value))),
        );
    }
}

/// A furniture `VMAD` given the workbench script: a bench (keyword
/// `Workbench_General`) without a `VMAD` gets `script` first; one whose
/// first `VMAD` is a FO4 v6/format-2 blob without `WorkbenchScript` gets the
/// script appended (its count raised, the script's entries after its
/// 6-byte header added), unless the count would overflow.
pub open spec fn workbench_script_ensured(interner: StringInterner, script: Seq<u8>, r: RecordView) -> RecordView {
    if r.sig != code('F', 'U', 'R', 'N') || !(exists|j: int|
        0 <= j < r.fields.len() && (#[trigger] r.fields[j]).sig == code('K', 'W', 'D', 'A') && has_fo4_keyword(
            interner,
            r.fields[j].value,
            0x091FD4,
        )) {
        r
    } else {
        match first_with_sig(r.fields, code('V', 'M', 'A', 'D')) {
            None => RecordView {
                fields: seq![EntryView { sig: code('V', 'M', 'A', 'D'), value: FieldView::Bytes(script) }] + r.fields,
                ..r
            },
            Some(i) => match r.fields[i].value {
                FieldView::Bytes(b) => if b.len() < 6 || le16(b, 0) != 6 || le16(b, 2) != 2 || vmad_has_name(
                    b,
                    "WorkbenchScript".spec_bytes(),
                ) || le16(b, 4) == u16::MAX {
                    r
                } else {
                    RecordView {
                        fields: r.fields.update(
                            i,
                            EntryView {
                                value: FieldView::Bytes(
                                    splice(b, 4, u16_bytes((le16(b, 4) + 1) as u16)) + script.subrange(
                                        6,
                                        script.len() as int,
                                    ),
                                ),
                                ..r.fields[i]
                            },
                        ),
                        ..r
                    }
                },
                _ => r,
            },
        }
    }
}

impl Fo76Fo4Hook {
    /// Give a crafting bench FO4's `WorkbenchScript` (encoded as `script`),
    /// so that it claims an unowned linked workshop when activated.
    pub fn ensure_workbench_script_vmad(interner: &StringInterner, record: &mut Record, script: Vec<u8>)
        requires
            script@.len() >= 6,
        ensures
            final(record)@ == workbench_script_ensured(*interner, script@, old(record)@),
    {
        if !sig_is(record.sig.0, 'F', 'U', 'R', 'N') {
            return;
        }
        let ghost r0 = record@;
        let mut j: usize = 0;
        let mut bench = false;
        while j < record.fields.len()
            invariant
                j <= record.fields@.len(),
                record@ == r0,
                bench == exists|q: int| 0 <= q < j && (#[trigger] r0.fields[q]).sig == code('K', 'W', 'D', 'A')
                    && has_fo4_keyword(*interner, r0.fields[q].value, 0x091FD4),
            decreases record.fields@.len() - j,
        {
            let e = &record.fields[j];
            assert(r0.fields[j as int] == e@);
            if sig_is(e.sig.0, 'K', 'W', 'D', 'A') && fo4_keyword_value(&e.value, interner, 0x091FD4) {
                bench = true;
            }
            j = j + 1;
        }
        if !bench {
            return;
        }
        match find_sig(&record.fields, crate::model::tag('V', 'M', 'A', 'D')) {
            None => {
                let ghost sv = script@;
                record.fields.insert(0, FieldEntry { sig: SubrecordSig(crate::model::tag('V', 'M', 'A', 'D')), value: FieldValue::Bytes(script) });
                assert(record@.fields =~= seq![EntryView { sig: code('V', 'M', 'A', 'D'), value: FieldView::Bytes(sv) }] + r0.fields);
            },
            Some(i) => {
                assert(r0.fields[i as int] == record.fields@[i as int]@);
                let ok = match &record.fields[i].value {
                    FieldValue::Bytes(b) => !(b.len() < 6 || read_u16_le(b.as_slice(), 0) != 6 || read_u16_le(b.as_slice(), 2)
                        != 2 || vmad_contains_name(b.as_slice(), "WorkbenchScript") || read_u16_le(b.as_slice(), 4)
                        == 0xffff),
                    _ => false,
                };
                if !ok {
                    return;
                }
                let mut fields: Vec<FieldEntry> = Vec::new();
                core::mem::swap(&mut record.fields, &mut fields);
                let mut entry = fields.remove(i);
                match &mut entry.value {
                    FieldValue::Bytes(b) => {
                        let count = read_u16_le(b.as_slice(), 4);
                        write_u16_le(b, 4, count + 1);
                        let ghost mid = b@;
                        let mut k: usize = 6;
                        while k < script.len()
                            invariant
                                6 <= k <= script@.len(),
                                b@ == mid + script@.subrange(6, k as int),
                            decreases script.len() - k,
                        {
                            b.push(script[k]);
                            assert(b@ =~= mid + script@.subrange(6, k + 1));
                            k = k + 1;
                        }
                    },
                    _ => {},
                }
                fields.insert(i, entry);
                record.fields = fields;
                assert(record@.fields =~= workbench_script_ensured(*interner, script@, r0).fields);
            },
        }
    }
}

} // verus!
