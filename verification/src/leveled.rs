//! Leveled lists: FO76 `LVLO` entries re-encoded in the FO4 layout, entries
//! gated by FO76-only world state dropped, and the `LLCT` count kept in step.
use vstd::prelude::*;
use crate::text::{intern_all, intern_each};
use crate::text::name_handle;
use vstd::string::StringSliceAdditionalSpecFns;
use vstd::pervasive::VecAdditionalExecFns;
use crate::bytes::{le16, le32, read_u16_le, read_u32_le, u16_bytes};
use crate::conditions::{raw_function_id, raw_operator};
use crate::effects::Fo76Fo4Hook;
use crate::fields::{find_sig, first_where, first_with_sig, has_sig, push_entry, lemma_has_sig_take};
use crate::floatbits::{f32_bits_nan, f32_bits_positive, f32_eq, f32_lt, f32_nan, f32_negative, f32_positive, f32_zero};
use crate::model::{code, entries_view, lemma_list_view, lemma_struct_view, named_view, sig_is, tag,
    values_view, EntryView, FieldEntry, FieldValue, FieldView, FormKey, Record, RecordView, SubrecordSig, Sym};
use crate::names::exact_match;
use crate::text::{strs_bytes, bytes_eq, bytes_eq_ignore_case, eq_ignore_case, handle_of, lemma_handle_of, lit,
    StringInterner};
use crate::values::{field_value_to_u16, value_to_u16};

verus! {

/// The comparison value of a raw condition as its `f32` bit pattern
/// (bytes 4..8).
pub open spec fn raw_comparison_bits(b: Seq<u8>) -> Option<u32> {
    if b.len() >= 8 {
        Some(le32(b, 4))
    } else {
        None
    }
}

/// Whether a `GetGlobalValue` condition holds only while its global is
/// non-zero: `== c` with `c != 0`, `!= 0`, `> c` with `c >= 0`, or `>= c`
/// with `c > 0` (IEEE comparisons; NaN compares unequal and unordered).
pub open spec fn requires_global_on(b: Seq<u8>) -> bool {
    match (raw_operator(b), raw_comparison_bits(b)) {
        (Some(op), Some(c)) => if op == 0 {
            !f32_zero(c)
        } else if op == 1 {
            f32_zero(c)
        } else if op == 2 {
            !f32_nan(c) && (!f32_negative(c) || f32_zero(c))
        } else if op == 3 {
            f32_positive(c)
        } else {
            false
        },
        _ => false,
    }
}

/// Whether a condition gates on FO76-only world state: a nuke-zone check,
/// or a `GetGlobalValue` gate that needs the global on.
pub open spec fn gates_dropped_world_state(v: FieldView) -> bool {
    match v {
        FieldView::Bytes(b) => match raw_function_id(b) {
            Some(id) => id == 849 || (id == 74 && requires_global_on(b)),
            None => false,
        },
        _ => false,
    }
}

/// Whether entry `k` lies among the entries that follow the `LVLO` at `i`
/// and come before the next `LVLO`.
pub open spec fn in_lvlo_window(f: Seq<EntryView>, i: int, k: int) -> bool {
    &&& i < k < f.len()
    &&& forall|m: int| i < m <= k ==> #[trigger] f[m].sig != code('L', 'V', 'L', 'O')
}

/// Whether the `LVLO` at `i` carries a condition on FO76-only world state.
pub open spec fn lvlo_gated(f: Seq<EntryView>, i: int) -> bool {
    exists|k: int|
        #[trigger] in_lvlo_window(f, i, k) && (f[k].sig == code('C', 'T', 'D', 'A') || f[k].sig == code(
            'C',
            'T',
            'D',
            'T',
        )) && gates_dropped_world_state(f[k].value)
}

/// The FO76 form a raw id names in the source plugin.
pub open spec fn raw_form_key(raw: u32, plugin: Sym) -> FormKey {
    FormKey { local: raw & 0x00FF_FFFF, plugin: plugin }
}

/// Struct members tried, in order, for a leveled entry's reference.
pub open spec fn lvlo_reference_names() -> Seq<Seq<u8>> {
    seq![
        "value".spec_bytes(),
        "reference".spec_bytes(),
        "reference_reference".spec_bytes(),
        "base_data_item".spec_bytes(),
        "base_data_npc".spec_bytes(),
        "base_data_spell".spec_bytes(),
        "pack_in".spec_bytes(),
        "item".spec_bytes(),
        "npc".spec_bytes(),
        "spell".spec_bytes(),
    ]
}

/// The index of the first member named exactly `name`, or -1.
pub open spec fn exact_index(interner: StringInterner, fields: Seq<(Sym, FieldView)>, name: Seq<u8>) -> int {
    if exists|j: int|
        0 <= j < fields.len() && exact_match(interner, fields, name, j) && forall|k: int|
            0 <= k < j ==> !exact_match(interner, fields, name, k) {
        choose|j: int|
            0 <= j < fields.len() && exact_match(interner, fields, name, j) && forall|k: int|
                0 <= k < j ==> !exact_match(interner, fields, name, k)
    } else {
        -1
    }
}

/// The form a leveled entry's value references: a form key; an integer
/// that fits `u32` as a raw id; a raw id at bytes 4..8 of a 12-byte entry
/// or 0..4 of a shorter one; for a struct, the named members in order and
/// then every member; for a list, its first item that references one.
pub open spec fn lvlo_reference(interner: StringInterner, plugin: Sym, v: FieldView) -> Option<FormKey>
    decreases v, 0int,
{
    match v {
        FieldView::FormKey(fk) => Some(fk),
        FieldView::Uint(n) => if n <= u32::MAX {
            Some(raw_form_key(n as u32, plugin))
        } else {
            None
        },
        FieldView::Int(n) => if 0 <= n <= u32::MAX {
            Some(raw_form_key(n as u32, plugin))
        } else {
            None
        },
        FieldView::Bytes(b) => if b.len() >= 12 {
            Some(raw_form_key(le32(b, 4), plugin))
        } else if b.len() >= 4 {
            Some(raw_form_key(le32(b, 0), plugin))
        } else {
            None
        },
        FieldView::Struct(fields) => struct_lvlo_reference(interner, plugin, fields, 0),
        FieldView::List(items) => list_lvlo_reference(interner, plugin, items, 0),
        _ => None,
    }
}

/// The reference of a struct, from step `k` on: steps below ten try the
/// named members, later steps try member `k - 10`.
pub open spec fn struct_lvlo_reference(
    interner: StringInterner,
    plugin: Sym,
    fields: Seq<(Sym, FieldView)>,
    k: int,
) -> Option<FormKey>
    decreases fields, 10 + fields.len() - k,
{
    if k < 0 || k >= 10 + fields.len() {
        None
    } else {
        let j = if k < 10 {
            exact_index(interner, fields, lvlo_reference_names()[k])
        } else {
            k - 10
        };
        if 0 <= j < fields.len() {
            match lvlo_reference(interner, plugin, fields[j].1) {
                Some(r) => Some(r),
                None => struct_lvlo_reference(interner, plugin, fields, k + 1),
            }
        } else {
            struct_lvlo_reference(interner, plugin, fields, k + 1)
        }
    }
}

/// The first item, from `i` on, that references a form.
pub open spec fn list_lvlo_reference(interner: StringInterner, plugin: Sym, items: Seq<FieldView>, i: int) -> Option<FormKey>
    decreases items, items.len() - i,
{
    if i < 0 || i >= items.len() {
        None
    } else {
        match lvlo_reference(interner, plugin, items[i]) {
            Some(r) => Some(r),
            None => list_lvlo_reference(interner, plugin, items, i + 1),
        }
    }
}


/// The FO76 form a raw id names in the source plugin.
pub fn source_form_key_from_raw(raw: u32, source_plugin: Sym) -> (r: FormKey)
    ensures
        r == raw_form_key(raw, source_plugin),
{
    FormKey { local: raw & 0x00FF_FFFF, plugin: source_plugin }
}

fn exact_index_exec(interner: &StringInterner, fields: &Vec<(Sym, FieldValue)>, name: &[u8]) -> (r: usize)
    ensures
        r <= fields@.len(),
        r < fields@.len() ==> exact_index(*interner, named_view(fields@), name@) == r as int,
        r == fields@.len() ==> exact_index(*interner, named_view(fields@), name@) == -1,
{
    let ghost nv = named_view(fields@);
    let mut i: usize = 0;
    while i < fields.len()
        invariant
            i <= fields.len(),
            nv == named_view(fields@),
            forall|k: int| 0 <= k < i ==> !exact_match(*interner, nv, name@, k),
        decreases fields.len() - i,
    {
        assert(nv[i as int].0 == fields@[i as int].0);
        let hit = match interner.resolve(fields[i].0) {
            Some(actual) => bytes_eq(actual, name),
            None => false,
        };
        if hit {
            proof {
                assert(exact_match(*interner, nv, name@, i as int));
            }
            return i;
        }
        i = i + 1;
    }
    i
}

impl Fo76Fo4Hook {
    /// The comparison value of a raw condition, as its `f32` bit pattern.
    pub fn raw_condition_comparison_value(bytes: &[u8]) -> (r: Option<u32>)
        ensures
            r == raw_comparison_bits(bytes@),
    {
        if bytes.len() < 8 {
            None
        } else {
            Some(read_u32_le(bytes, 4))
        }
    }

    /// Whether a `GetGlobalValue` condition needs its global on.
    pub fn condition_requires_global_on(bytes: &[u8]) -> (r: bool)
        ensures
            r == requires_global_on(bytes@),
    {
        let op = Self::raw_condition_operator(bytes);
        let cmp = Self::raw_condition_comparison_value(bytes);
        match (op, cmp) {
            (Some(op), Some(c)) => {
                let zero = c == 0 || c == 0x8000_0000;
                if op == 0 {
                    !zero
                } else if op == 1 {
                    zero
                } else if op == 2 {
                    !f32_bits_nan(c) && (c < 0x8000_0000 || zero)
                } else if op == 3 {
                    f32_bits_positive(c)
                } else {
                    false
                }
            },
            _ => false,
        }
    }

    /// Whether a condition gates on FO76-only world state.
    pub fn condition_gates_dropped_world_state(value: &FieldValue) -> (r: bool)
        ensures
            r == gates_dropped_world_state(value@),
    {
        let FieldValue::Bytes(bytes) = value else {
            return false;
        };
        match Self::raw_condition_function_id(bytes.as_slice()) {
            Some(id) => if id == 849 {
                true
            } else if id == 74 {
                Self::condition_requires_global_on(bytes.as_slice())
            } else {
                false
            },
            None => false,
        }
    }

    /// Whether the `LVLO` at `lvlo_index` is gated by a condition on FO76-only
    /// world state among the entries up to the next `LVLO`.
    pub fn leveled_entry_gated_by_dropped_world_state(old_fields: &Vec<FieldEntry>, lvlo_index: usize) -> (r: bool)
        requires
            lvlo_index < old_fields@.len(),
        ensures
            r == lvlo_gated(entries_view(old_fields@), lvlo_index as int),
    {
        let ghost f = entries_view(old_fields@);
        let n = old_fields.len();
        let mut k: usize = lvlo_index + 1;
        while k < old_fields.len()
            invariant
                lvlo_index < k <= old_fields@.len(),
                f == entries_view(old_fields@),
                forall|m: int| lvlo_index < m < k ==> #[trigger] f[m].sig != code('L', 'V', 'L', 'O'),
                forall|m: int|
                    lvlo_index < m < k ==> !((f[m].sig == code('C', 'T', 'D', 'A') || f[m].sig == code(
                        'C',
                        'T',
                        'D',
                        'T',
                    )) && #[trigger] gates_dropped_world_state(f[m].value)),
            decreases old_fields@.len() - k,
        {
            assert(f[k as int] == old_fields@[k as int]@);
            let s = old_fields[k].sig.0;
            if sig_is(s, 'L', 'V', 'L', 'O') {
                proof {
                    assert forall|m: int| #[trigger] in_lvlo_window(f, lvlo_index as int, m) implies !((f[m].sig
                        == code('C', 'T', 'D', 'A') || f[m].sig == code('C', 'T', 'D', 'T'))
                        && gates_dropped_world_state(f[m].value)) by {
                        if m >= k {
                            assert(f[k as int].sig != code('L', 'V', 'L', 'O'));
                        }
                    }
                }
                return false;
            }
            if (sig_is(s, 'C', 'T', 'D', 'A') || sig_is(s, 'C', 'T', 'D', 'T'))
                && Self::condition_gates_dropped_world_state(&old_fields[k].value) {
                assert(in_lvlo_window(f, lvlo_index as int, k as int));
                return true;
            }
            k = k + 1;
        }
        proof {
            assert forall|m: int| #[trigger] in_lvlo_window(f, lvlo_index as int, m) implies !((f[m].sig
                == code('C', 'T', 'D', 'A') || f[m].sig == code('C', 'T', 'D', 'T'))
                && gates_dropped_world_state(f[m].value)) by {}
        }
        false
    }
}

/// The form a leveled entry's value references, if any.
pub fn source_lvlo_reference(value: &FieldValue, source_plugin: Sym, interner: &StringInterner) -> (r: Option<FormKey>)
    requires
        interner.wf(),
    ensures
        r == lvlo_reference(*interner, source_plugin, value@),
    decreases value,
{
    match value {
        FieldValue::FormKey(fk) => Some(*fk),
        FieldValue::Uint(n) => if *n <= 0xffff_ffff {
            Some(source_form_key_from_raw(*n as u32, source_plugin))
        } else {
            None
        },
        FieldValue::Int(n) => if 0 <= *n && *n <= 0xffff_ffff {
            Some(source_form_key_from_raw(*n as u32, source_plugin))
        } else {
            None
        },
        FieldValue::Bytes(bytes) => if bytes.len() >= 12 {
            Some(source_form_key_from_raw(read_u32_le(bytes.as_slice(), 4), source_plugin))
        } else if bytes.len() >= 4 {
            Some(source_form_key_from_raw(read_u32_le(bytes.as_slice(), 0), source_plugin))
        } else {
            None
        },
        FieldValue::Struct(fields) => {
            let ghost s = value@->Struct_0;
            proof {
                lemma_struct_view(*value);
            }
            let names: Vec<&str> = vec![
                "value",
                "reference",
                "reference_reference",
                "base_data_item",
                "base_data_npc",
                "base_data_spell",
                "pack_in",
                "item",
                "npc",
                "spell",
            ];
            assert(names@.len() == 10);
            assert(forall|k: int| 0 <= k < 10 ==> #[trigger] names@[k].spec_bytes() == lvlo_reference_names()[k]);
            let n = fields.len();
            let mut k: usize = 0;
            while k < 10
                invariant
                    n == fields@.len(),
                    k <= 10,
                    *value is Struct,
                    value->Struct_0 == *fields,
                    s == value@->Struct_0,
                    s == named_view(fields@),
                    s.len() == n,
                    names@.len() == 10,
                    forall|q: int| 0 <= q < 10 ==> #[trigger] names@[q].spec_bytes() == lvlo_reference_names()[q],
                    interner.wf(),
                    struct_lvlo_reference(*interner, source_plugin, s, 0) == struct_lvlo_reference(
                        *interner,
                        source_plugin,
                        s,
                        k as int,
                    ),
                decreases 10 - k,
            {
                let j = exact_index_exec(interner, fields, lit(names[k]));
                if j < n {
                    proof {
                        let ghost all = value->Struct_0;
                        assert(decreases_to!(all => all@));
                        assert(decreases_to!(all@ => all@[j as int]));
                        assert(decreases_to!(all@[j as int] => all@[j as int].1));
                        assert(s[j as int].1 == fields@[j as int].1@);
                    }
                    let r = source_lvlo_reference(&fields[j].1, source_plugin, interner);
                    if r.is_some() {
                        return r;
                    }
                }
                k = k + 1;
            }
            let mut j: usize = 0;
            while j < n
                invariant
                    n == fields@.len(),
                    j <= n,
                    *value is Struct,
                    value->Struct_0 == *fields,
                    s == value@->Struct_0,
                    s == named_view(fields@),
                    s.len() == n,
                    interner.wf(),
                    struct_lvlo_reference(*interner, source_plugin, s, 0) == struct_lvlo_reference(
                        *interner,
                        source_plugin,
                        s,
                        10 + j,
                    ),
                decreases n - j,
            {
                proof {
                    let ghost all = value->Struct_0;
                    assert(decreases_to!(all => all@));
                    assert(decreases_to!(all@ => all@[j as int]));
                    assert(decreases_to!(all@[j as int] => all@[j as int].1));
                    assert(s[j as int].1 == fields@[j as int].1@);
                }
                let r = source_lvlo_reference(&fields[j].1, source_plugin, interner);
                if r.is_some() {
                    return r;
                }
                j = j + 1;
            }
            None
        },
        FieldValue::List(items) => {
            let ghost s = value@->List_0;
            proof {
                lemma_list_view(*value);
            }
            let n = items.len();
            let mut i: usize = 0;
            while i < n
                invariant
                    n == items@.len(),
                    i <= n,
                    *value is List,
                    value->List_0 == *items,
                    s == value@->List_0,
                    s == values_view(items@),
                    s.len() == n,
                    interner.wf(),
                    list_lvlo_reference(*interner, source_plugin, s, 0) == list_lvlo_reference(
                        *interner,
                        source_plugin,
                        s,
                        i as int,
                    ),
                decreases n - i,
            {
                proof {
                    let ghost all = value->List_0;
                    assert(decreases_to!(all => all@));
                    assert(decreases_to!(all@ => all@[i as int]));
                    assert(s[i as int] == items@[i as int]@);
                }
                let r = source_lvlo_reference(&items[i], source_plugin, interner);
                if r.is_some() {
                    return r;
                }
                i = i + 1;
            }
            None
        },
        _ => None,
    }
}


/// Whether a record is a leveled list.
pub open spec fn leveled_sig(s: [u8; 4]) -> bool {
    s == code('L', 'V', 'L', 'I') || s == code('L', 'V', 'L', 'N') || s == code('L', 'V', 'S', 'P')
}

/// The names the FO4 `LVLO` layout uses, and the FO4 master.
pub open spec fn leveled_names() -> Seq<Seq<u8>> {
    seq![
        "level".spec_bytes(),
        "unknown_u8_1".spec_bytes(),
        "unknown_u8_2".spec_bytes(),
        "item".spec_bytes(),
        "npc".spec_bytes(),
        "spell".spec_bytes(),
        "count".spec_bytes(),
        "chance_none".spec_bytes(),
        "unknown_u8_6".spec_bytes(),
        "Fallout4.esm".spec_bytes(),
    ]
}

pub(crate) fn leveled_name_list() -> (r: Vec<&'static str>)
    ensures
        strs_bytes(r@) == leveled_names(),
{
    let r: Vec<&'static str> = vec![
        "level",
        "unknown_u8_1",
        "unknown_u8_2",
        "item",
        "npc",
        "spell",
        "count",
        "chance_none",
        "unknown_u8_6",
        "Fallout4.esm",
    ];
    assert(strs_bytes(r@) =~= leveled_names());
    r
}

/// Whether the interner holds every name the FO4 layout uses.
pub open spec fn holds_leveled_names(held: Seq<Seq<u8>>) -> bool {
    forall|i: int| 0 <= i < leveled_names().len() ==> held.contains(#[trigger] leveled_names()[i])
}

/// A `u16` of a full-size raw `LVLO` at `off`.
pub open spec fn lvlo_u16(v: FieldView, off: int) -> Option<u16> {
    match v {
        FieldView::Bytes(b) => if b.len() >= 12 && 0 <= off && off + 2 <= b.len() {
            Some(le16(b, off))
        } else {
            None
        },
        _ => None,
    }
}

/// The value of the first `sig` entry from `start` on, before the next
/// `LVLO`, read as a `u16` (`default` when there is none or it does not read).
pub open spec fn following_u16(f: Seq<EntryView>, start: int, sig: [u8; 4], default: u16) -> u16 {
    match first_where(f.skip(start), |e: EntryView| e.sig == code('L', 'V', 'L', 'O') || e.sig == sig) {
        Some(o) => if f[start + o].sig != code('L', 'V', 'L', 'O') {
            match value_to_u16(f[start + o].value) {
                Some(v) => v,
                None => default,
            }
        } else {
            default
        },
        None => default,
    }
}

/// The FO4 caps form replaces the FO76 caps form.
pub open spec fn remapped_lvlo_reference(interner: StringInterner, held: Seq<Seq<u8>>, r: FormKey) -> FormKey {
    if r.local == 0xF && (interner.spec_resolve(r.plugin) matches Some(p) && eq_ignore_case(p, "SeventySix.esm".spec_bytes())) {
        FormKey { local: 0xF, plugin: handle_of(held, "Fallout4.esm".spec_bytes()) }
    } else {
        r
    }
}

/// The member naming a leveled entry's reference in a list of this type.
pub open spec fn reference_field_name(rsig: [u8; 4]) -> Seq<u8> {
    if rsig == code('L', 'V', 'L', 'N') {
        "npc".spec_bytes()
    } else if rsig == code('L', 'V', 'S', 'P') {
        "spell".spec_bytes()
    } else {
        "item".spec_bytes()
    }
}

/// A FO4 leveled entry: level, two zero bytes, the reference, count, a zero
/// chance-none and a zero byte.
pub open spec fn fo4_lvlo(held: Seq<Seq<u8>>, rsig: [u8; 4], level: u16, reference: FormKey, count: u16) -> FieldView {
    FieldView::Struct(
        seq![
            (handle_of(held, "level".spec_bytes()), FieldView::Bytes(u16_bytes(level))),
            (handle_of(held, "unknown_u8_1".spec_bytes()), FieldView::Bytes(seq![0u8])),
            (handle_of(held, "unknown_u8_2".spec_bytes()), FieldView::Bytes(seq![0u8])),
            (handle_of(held, reference_field_name(rsig)), FieldView::FormKey(reference)),
            (handle_of(held, "count".spec_bytes()), FieldView::Bytes(u16_bytes(count))),
            (handle_of(held, "chance_none".spec_bytes()), FieldView::Bytes(seq![0u8])),
            (handle_of(held, "unknown_u8_6".spec_bytes()), FieldView::Bytes(seq![0u8])),
        ],
    )
}

/// The FO4 form of the `LVLO` at `i`, or `None` when it is dropped (gated
/// by FO76-only world state, or naming no form).
pub open spec fn lvlo_converted(interner: StringInterner, r: RecordView, i: int) -> Option<EntryView> {
    let f = r.fields;
    let e = f[i];
    if lvlo_gated(f, i) {
        None
    } else {
        match lvlo_reference(interner, r.form_key.plugin, e.value) {
            None => None,
            Some(rf) => {
                let level = match lvlo_u16(e.value, 0) {
                    Some(v) => v,
                    None => following_u16(f, i + 1, code('L', 'V', 'L', 'V'), 1),
                };
                let count = match lvlo_u16(e.value, 8) {
                    Some(v) => v,
                    None => following_u16(f, i + 1, code('L', 'V', 'I', 'V'), 1),
                };
                Some(EntryView {
                    sig: e.sig,
                    value: fo4_lvlo(interner@, r.sig, level, remapped_lvlo_reference(interner, interner@, rf), count),
                })
            },
        }
    }
}

/// The first `n` entries converted.
pub open spec fn leveled_out(interner: StringInterner, r: RecordView, n: int) -> Seq<EntryView>
    decreases n,
{
    if n <= 0 {
        Seq::empty()
    } else {
        let prev = leveled_out(interner, r, n - 1);
        if r.fields[n - 1].sig == code('L', 'V', 'L', 'O') {
            match lvlo_converted(interner, r, n - 1) {
                Some(c) => prev.push(c),
                None => prev,
            }
        } else {
            prev.push(r.fields[n - 1])
        }
    }
}

/// How many of the first `n` entries are converted `LVLO`s.
pub open spec fn leveled_count(interner: StringInterner, r: RecordView, n: int) -> nat
    decreases n,
{
    if n <= 0 {
        0
    } else {
        leveled_count(interner, r, n - 1) + if r.fields[n - 1].sig == code('L', 'V', 'L', 'O') && lvlo_converted(
            interner,
            r,
            n - 1,
        ) is Some {
            1nat
        } else {
            0nat
        }
    }
}

/// The entries with the `LLCT` count set to `count` (at most 255): the
/// first `LLCT` updated, or one added in front.
pub open spec fn synced_llct(f: Seq<EntryView>, count: nat) -> Seq<EntryView> {
    let c = if count > 255 { 255u64 } else { count as u64 };
    let e = EntryView { sig: code('L', 'L', 'C', 'T'), value: FieldView::Uint(c) };
    match first_with_sig(f, code('L', 'L', 'C', 'T')) {
        Some(k) => f.update(k, e),
        None => seq![e] + f,
    }
}

/// A leveled list converted: every `LVLO` re-encoded or dropped, and, when
/// it had any, the count synchronized to the converted ones.
pub open spec fn leveled_converted(interner: StringInterner, r: RecordView) -> RecordView {
    let n = r.fields.len() as int;
    let out = leveled_out(interner, r, n);
    RecordView {
        fields: if has_sig(r.fields, code('L', 'V', 'L', 'O')) {
            synced_llct(out, leveled_count(interner, r, n))
        } else {
            out
        },
        ..r
    }
}


/// A `u16` of a full-size raw `LVLO` at `offset`, if there.
pub fn raw_lvlo_u16(value: &FieldValue, offset: usize) -> (r: Option<u16>)
    ensures
        r == lvlo_u16(value@, offset as int),
{
    let FieldValue::Bytes(bytes) = value else {
        return None;
    };
    if bytes.len() < 12 {
        return None;
    }
    if offset > bytes.len() || bytes.len() - offset < 2 {
        return None;
    }
    Some(read_u16_le(bytes.as_slice(), offset))
}

/// The `u16` of the first `wanted_sig` entry from `start` on, before the
/// next `LVLO`, or `default_value`.
pub fn following_u16_value(fields: &Vec<FieldEntry>, start: usize, wanted_sig: [u8; 4], default_value: u16) -> (r: u16)
    requires
        start <= fields@.len(),
    ensures
        r == following_u16(entries_view(fields@), start as int, wanted_sig, default_value),
{
    let ghost f = entries_view(fields@);
    let ghost sub = f.skip(start as int);
    let mut k: usize = start;
    while k < fields.len()
        invariant
            start <= k <= fields@.len(),
            f == entries_view(fields@),
            sub == f.skip(start as int),
            forall|m: int| 0 <= m < k - start ==> !(#[trigger] sub[m].sig == code('L', 'V', 'L', 'O') || sub[m].sig == wanted_sig),
        decreases fields@.len() - k,
    {
        assert(f[k as int] == fields@[k as int]@);
        assert(sub[k - start] == f[k as int]);
        let s = fields[k].sig.0;
        let stop = sig_is(s, 'L', 'V', 'L', 'O');
        let hit = crate::model::same_code(s, wanted_sig);
        if stop || hit {
            proof {
                crate::fields::lemma_first_where(
                    sub,
                    |e: EntryView| e.sig == code('L', 'V', 'L', 'O') || e.sig == wanted_sig,
                    k - start,
                );
            }
            if stop {
                return default_value;
            }
            return match field_value_to_u16(&fields[k].value) {
                Some(v) => v,
                None => default_value,
            };
        }
        k = k + 1;
    }
    proof {
        crate::fields::lemma_first_where(
            sub,
            |e: EntryView| e.sig == code('L', 'V', 'L', 'O') || e.sig == wanted_sig,
            k - start,
        );
    }
    default_value
}

/// A FO4 leveled-entry struct.
/// The names it writes are interned first.
pub fn fo4_lvlo_value(interner: &mut StringInterner, record_sig: [u8; 4], level: u16, reference: FormKey, count: u16) -> (r: FieldValue)
    requires
        old(interner).wf(),
        old(interner)@.len() + leveled_names().len() <= u32::MAX,
    ensures
        final(interner).wf(),
        final(interner)@ == intern_all(old(interner)@, leveled_names()),
        r@ == fo4_lvlo(final(interner)@, record_sig, level, reference, count),
{
    let names = leveled_name_list();
    intern_each(interner, names.as_slice());
    proof {
        assert(strs_bytes(names@) =~= leveled_names());
        assert forall|k: int| 0 <= k < leveled_names().len() implies interner@.contains(#[trigger] leveled_names()[k]) by {
            assert(strs_bytes(names@)[k] == leveled_names()[k]);
            }
    }
    fo4_lvlo_value_interned(interner, record_sig, level, reference, count)
}

/// A FO4 leveled-entry struct.
pub(crate) fn fo4_lvlo_value_interned(interner: &StringInterner, record_sig: [u8; 4], level: u16, reference: FormKey, count: u16) -> (r: FieldValue)
    requires
        interner.wf(),
        holds_leveled_names(interner@),
    ensures
        r@ == fo4_lvlo(interner@, record_sig, level, reference, count),
{
    proof {
        assert(interner@.contains(leveled_names()[0]));
        assert(interner@.contains(leveled_names()[1]));
        assert(interner@.contains(leveled_names()[2]));
        assert(interner@.contains(leveled_names()[3]));
        assert(interner@.contains(leveled_names()[4]));
        assert(interner@.contains(leveled_names()[5]));
        assert(interner@.contains(leveled_names()[6]));
        assert(interner@.contains(leveled_names()[7]));
        assert(interner@.contains(leveled_names()[8]));
    }
    let reference_field = if sig_is(record_sig, 'L', 'V', 'L', 'N') {
        "npc"
    } else if sig_is(record_sig, 'L', 'V', 'S', 'P') {
        "spell"
    } else {
        "item"
    };
    let zero: Vec<u8> = vec![0u8];
    let members: Vec<(Sym, FieldValue)> = vec![
        (name_handle(interner, "level"), FieldValue::Bytes(crate::values::u16_le_vec(level))),
        (name_handle(interner, "unknown_u8_1"), crate::model::bytes_value(zero.as_slice())),
        (name_handle(interner, "unknown_u8_2"), crate::model::bytes_value(zero.as_slice())),
        (name_handle(interner, reference_field), FieldValue::FormKey(reference)),
        (name_handle(interner, "count"), FieldValue::Bytes(crate::values::u16_le_vec(count))),
        (name_handle(interner, "chance_none"), crate::model::bytes_value(zero.as_slice())),
        (name_handle(interner, "unknown_u8_6"), crate::model::bytes_value(zero.as_slice())),
    ];
    let r = FieldValue::Struct(members);
    proof {
        lemma_struct_view(r);
        assert(zero@ =~= seq![0u8]);
        assert(named_view(r->Struct_0@) =~= fo4_lvlo(interner@, record_sig, level, reference, count)->Struct_0);
    }
    r
}

/// Replace the FO76 caps form by the FO4 one.
/// The names it writes are interned first.
pub fn remap_known_lvlo_reference(interner: &mut StringInterner, reference: FormKey) -> (r: FormKey)
    requires
        old(interner).wf(),
        old(interner)@.len() + leveled_names().len() <= u32::MAX,
    ensures
        final(interner).wf(),
        final(interner)@ == intern_all(old(interner)@, leveled_names()),
        r == remapped_lvlo_reference(*final(interner), final(interner)@, reference),
{
    let names = leveled_name_list();
    intern_each(interner, names.as_slice());
    proof {
        assert(strs_bytes(names@) =~= leveled_names());
        assert forall|k: int| 0 <= k < leveled_names().len() implies interner@.contains(#[trigger] leveled_names()[k]) by {
            assert(strs_bytes(names@)[k] == leveled_names()[k]);
            }
    }
    remap_known_lvlo_reference_interned(interner, reference)
}

/// Replace the FO76 caps form by the FO4 one.
pub(crate) fn remap_known_lvlo_reference_interned(interner: &StringInterner, reference: FormKey) -> (r: FormKey)
    requires
        interner.wf(),
        holds_leveled_names(interner@),
    ensures
        r == remapped_lvlo_reference(*interner, interner@, reference),
{
    if reference.local == 0xF {
        let fo76 = match interner.resolve(reference.plugin) {
            Some(p) => bytes_eq_ignore_case(p, lit("SeventySix.esm")),
            None => false,
        };
        if fo76 {
            assert(interner@.contains(leveled_names()[9]));
            return FormKey { local: 0xF, plugin: name_handle(interner, "Fallout4.esm") };
        }
    }
    reference
}

/// Set the `LLCT` count (capped at 255), adding the entry in front when
/// there is none.
pub fn sync_llct_count(record: &mut Record, count: usize)
    ensures
        final(record)@ == (RecordView { fields: synced_llct(old(record)@.fields, count as nat), ..old(record)@ }),
{
    let c: u64 = if count > 255 { 255 } else { count as u64 };
    let entry = FieldEntry { sig: SubrecordSig(tag('L', 'L', 'C', 'T')), value: FieldValue::Uint(c) };
    let ghost before = record@.fields;
    let ghost ev = entry@;
    match find_sig(&record.fields, tag('L', 'L', 'C', 'T')) {
        Some(k) => {
            record.fields.set(k, entry);
            assert(record@.fields =~= before.update(k as int, ev));
        },
        None => {
            record.fields.insert(0, entry);
            assert(record@.fields =~= seq![ev] + before);
        },
    }
}


impl Fo76Fo4Hook {
    /// Convert a FO76 leveled list's entries to the FO4 layout. The names of
    /// the FO4 layout and the FO4 master are interned first.
    pub fn convert_fo76_leveled_list_entries(interner: &mut StringInterner, record: &mut Record)
        requires
            old(interner).wf(),
            old(interner)@.len() + leveled_names().len() <= u32::MAX,
        ensures
            final(interner).wf(),
            final(interner)@ == intern_all(old(interner)@, leveled_names()),
            !leveled_sig(old(record)@.sig) ==> final(record)@ == old(record)@,
            leveled_sig(old(record)@.sig) ==> final(record)@ == leveled_converted(*final(interner), old(record)@),
    {
        let names = leveled_name_list();
        intern_each(interner, names.as_slice());
        proof {
            assert(strs_bytes(names@) =~= leveled_names());
            assert forall|k: int| 0 <= k < leveled_names().len() implies interner@.contains(#[trigger] leveled_names()[k]) by {
                assert(strs_bytes(names@)[k] == leveled_names()[k]);
                }
        }
        Self::convert_fo76_leveled_list_entries_interned(interner, record)
    }

    /// Convert a FO76 leveled list's entries to the FO4 layout. The names of
    /// the FO4 layout must be held already, so nothing is interned.
    #[verifier::rlimit(40)]
    pub(crate) fn convert_fo76_leveled_list_entries_interned(interner: &StringInterner, record: &mut Record)
        requires
            interner.wf(),
            holds_leveled_names(interner@),
        ensures
            !leveled_sig(old(record)@.sig) ==> final(record)@ == old(record)@,
            leveled_sig(old(record)@.sig) ==> final(record)@ == leveled_converted(*interner, old(record)@),
    {
        let rsig = record.sig.0;
        if !(sig_is(rsig, 'L', 'V', 'L', 'I') || sig_is(rsig, 'L', 'V', 'L', 'N') || sig_is(rsig, 'L', 'V', 'S', 'P')) {
            return;
        }
        proof {
        assert forall|k: int| 0 <= k < leveled_names().len() implies interner@.contains(
                #[trigger] leveled_names()[k],
            ) by {}
        }
        let ghost r0 = record@;
        let mut old_fields: Vec<FieldEntry> = Vec::new();
        core::mem::swap(&mut record.fields, &mut old_fields);
        let n = old_fields.len();
        let plugin = record.form_key.plugin;
        let mut retained: Vec<FieldEntry> = Vec::new();
        let mut converted: usize = 0;
        let mut saw_lvlo = false;
        let mut i: usize = 0;
        assert(r0.fields.take(0) =~= Seq::<EntryView>::empty());
        assert(entries_view(retained@) =~= Seq::<EntryView>::empty());
        while i < n
            invariant
                n == old_fields@.len(),
                r0.fields == entries_view(old_fields@),
                plugin == r0.form_key.plugin,
                rsig == r0.sig,
                i <= n,
                interner.wf(),
                holds_leveled_names(interner@),
                entries_view(retained@) == leveled_out(*interner, r0, i as int),
                converted == leveled_count(*interner, r0, i as int),
                converted <= i,
                saw_lvlo == has_sig(r0.fields.take(i as int), code('L', 'V', 'L', 'O')),
            decreases n - i,
        {
            assert(r0.fields[i as int] == old_fields@[i as int]@);
            proof {
                lemma_has_sig_take(r0.fields, code('L', 'V', 'L', 'O'), i as int);
            }
            let s = old_fields[i].sig.0;
            if sig_is(s, 'L', 'V', 'L', 'O') {
                saw_lvlo = true;
                if !Self::leveled_entry_gated_by_dropped_world_state(&old_fields, i) {
                    if let Some(reference) = source_lvlo_reference(&old_fields[i].value, plugin, interner) {
                        let reference = remap_known_lvlo_reference_interned(interner, reference);
                        let level = match raw_lvlo_u16(&old_fields[i].value, 0) {
                            Some(v) => v,
                            None => following_u16_value(&old_fields, i + 1, tag('L', 'V', 'L', 'V'), 1),
                        };
                        let count = match raw_lvlo_u16(&old_fields[i].value, 8) {
                            Some(v) => v,
                            None => following_u16_value(&old_fields, i + 1, tag('L', 'V', 'I', 'V'), 1),
                        };
                        let value = fo4_lvlo_value_interned(interner, rsig, level, reference, count);
                        push_entry(&mut retained, FieldEntry { sig: old_fields[i].sig, value: value });
                        converted = converted + 1;
                    }
                }
            } else {
                push_entry(&mut retained, old_fields[i].duplicate());
            }
            i = i + 1;
        }
        assert(r0.fields.take(n as int) =~= r0.fields);
        record.fields = retained;
        if saw_lvlo {
            sync_llct_count(record, converted);
        }
    }
}


/// A `GetGlobalValue` condition needs its global on exactly when it is
/// false with the global at its FO4 value, 0.0: an equality (`==`) gates
/// when the comparison value is not 0.0, an inequality (`!=`) when it is,
/// a `>` when the value is at least 0.0, a `>=` when it is above 0.0, and
/// the less-than comparisons never gate (IEEE comparisons on the value's
/// bits).
pub proof fn law_global_gate_at_zero(b: Seq<u8>)
    requires
        b.len() >= 8,
    ensures
        b[0] / 32 == 0 ==> (requires_global_on(b) <==> !f32_eq(le32(b, 4), 0u32)),
        b[0] / 32 == 1 ==> (requires_global_on(b) <==> f32_eq(le32(b, 4), 0u32)),
        b[0] / 32 == 2 ==> (requires_global_on(b) <==> f32_lt(0u32, le32(b, 4)) || f32_eq(le32(b, 4), 0u32)),
        b[0] / 32 == 3 ==> (requires_global_on(b) <==> f32_lt(0u32, le32(b, 4))),
        b[0] / 32 >= 4 ==> !requires_global_on(b),
{
}

/// A leveled entry followed, before the next entry, by a `GetGlobalValue`
/// condition that is false with the global at 0.0 is dropped from the FO4
/// list.
pub proof fn law_event_gated_entry_dropped(interner: StringInterner, r: RecordView, i: int, k: int, b: Seq<u8>)
    requires
        0 <= i,
        in_lvlo_window(r.fields, i, k),
        r.fields[k].sig == code('C', 'T', 'D', 'A') || r.fields[k].sig == code('C', 'T', 'D', 'T'),
        r.fields[k].value == FieldView::Bytes(b),
        b.len() >= 10,
        le16(b, 8) == 74,
        (b[0] / 32 == 0 && !f32_eq(le32(b, 4), 0u32)) || (b[0] / 32 == 1 && f32_eq(le32(b, 4), 0u32)) || (b[0]
            / 32 == 2 && (f32_lt(0u32, le32(b, 4)) || f32_eq(le32(b, 4), 0u32))) || (b[0] / 32 == 3 && f32_lt(
            0u32,
            le32(b, 4),
        )),
    ensures
        lvlo_converted(interner, r, i) is None,
{
    law_global_gate_at_zero(b);
    assert(gates_dropped_world_state(r.fields[k].value));
    assert(lvlo_gated(r.fields, i));
}

} // verus!
