//! Armor addons, actors and containers: biped slots FO4 does not share,
//! raw FO76 form references re-encoded as typed form keys, a combat style
//! swap, destructible blocks whose health is zero, and scene references.
use vstd::prelude::*;
use crate::text::{intern_all, intern_each, strs_bytes};
use crate::text::name_handle;
use vstd::string::StringSliceAdditionalSpecFns;
use vstd::pervasive::VecAdditionalExecFns;
use crate::bytes::{le32, read_u32_le};
use crate::effects::Fo76Fo4Hook;
use crate::fields::{find_sig, first_with_sig};
use crate::leveled::{raw_form_key, source_form_key_from_raw};
use crate::model::{code, copy_bytes, entries_view, lemma_struct_view, named_view, sig_is, tag, EntryView,
    FieldEntry, FieldValue, FieldView, FormKey, Record, RecordView, SubrecordSig, Sym};
use crate::names::{canonical_index, field_index_canonical};
use crate::text::{bytes_eq, handle_of, lemma_handle_of, lit, trim_nul, trim_nul_suffix, utf8_valid,
    StringInterner};
use crate::values::{field_value_to_i64, le32_signed, value_to_i64};

verus! {

/// FO76 upper-body skin attachment slots (41 through 45).
pub open spec fn upper_body_skin_mask() -> u64 {
    0xF800
}

/// The FO4 Pip-Boy slot (60).
pub open spec fn pipboy_mask() -> u64 {
    0x4000_0000
}

/// A biped mask with `slots` removed; other values unchanged.
pub open spec fn biped_removed(v: FieldView, slots: u64) -> FieldView {
    match v {
        FieldView::Uint(m) => FieldView::Uint(m & !slots),
        FieldView::Int(m) => if m >= 0 {
            FieldView::Int(m & !(slots as i64))
        } else {
            v
        },
        _ => v,
    }
}

/// Whether an `XFLG` entry marks an upper-body skin.
pub open spec fn upper_body_skin_flag(e: EntryView) -> bool {
    e.sig == code('X', 'F', 'L', 'G') && match e.value {
        FieldView::Uint(f) => f & 2 != 0,
        FieldView::Int(f) => f >= 0 && (f as u64) & 2 != 0,
        _ => false,
    }
}

/// Whether an armor addon carries an upper-body skin.
pub open spec fn has_upper_body_skin(r: RecordView) -> bool {
    r.sig == code('A', 'R', 'M', 'A') && exists|j: int|
        0 <= j < r.fields.len() && #[trigger] upper_body_skin_flag(r.fields[j])
}

/// The record with the value of its first `BOD2` stripped of `slots`.
pub open spec fn bod2_without(r: RecordView, slots: u64) -> RecordView {
    match first_with_sig(r.fields, code('B', 'O', 'D', '2')) {
        Some(i) => RecordView {
            fields: r.fields.update(i, EntryView { value: biped_removed(r.fields[i].value, slots), ..r.fields[i] }),
            ..r
        },
        None => r,
    }
}

/// Whether an `EDID` entry names the Chinese stealth armor addon.
pub open spec fn chinese_stealth_edid(interner: StringInterner, e: EntryView) -> bool {
    e.sig == code('E', 'D', 'I', 'D') && match e.value {
        FieldView::String(sym) => interner.spec_resolve(sym) == Some("AA_ArmorChineseStealth".spec_bytes()),
        FieldView::Bytes(b) => vstd::utf8::valid_utf8(b) && trim_nul(b) == "AA_ArmorChineseStealth".spec_bytes(),
        _ => false,
    }
}

/// Whether a record is the Chinese stealth armor addon.
pub open spec fn is_chinese_stealth_arma(interner: StringInterner, r: RecordView) -> bool {
    r.sig == code('A', 'R', 'M', 'A') && exists|j: int|
        0 <= j < r.fields.len() && #[trigger] chinese_stealth_edid(interner, r.fields[j])
}

fn strip_first_bod2(record: &mut Record, slots: u64)
    ensures
        final(record)@ == bod2_without(old(record)@, slots),
{
    let Some(i) = find_sig(&record.fields, tag('B', 'O', 'D', '2')) else {
        return;
    };
    let ghost before = record@.fields;
    let mut e = record.fields.remove(i);
    Fo76Fo4Hook::remove_biped_slots(&mut e.value, slots);
    let ghost ev = e@;
    record.fields.insert(i, e);
    assert(record@.fields =~= before.update(i as int, ev));
}

impl Fo76Fo4Hook {
    /// Remove biped slots from a mask.
    pub fn remove_biped_slots(value: &mut FieldValue, slots: u64)
        ensures
            final(value)@ == biped_removed(old(value)@, slots),
    {
        match value {
            FieldValue::Uint(m) => {
                *m = *m & !slots;
            },
            FieldValue::Int(m) => {
                if *m >= 0 {
                    *m = *m & !(slots as i64);
                }
            },
            _ => {},
        }
    }

    /// Whether an armor addon carries an upper-body skin.
    pub fn arma_has_upper_body_skin(record: &Record) -> (r: bool)
        ensures
            r == has_upper_body_skin(record@),
    {
        if !sig_is(record.sig.0, 'A', 'R', 'M', 'A') {
            return false;
        }
        let mut i: usize = 0;
        while i < record.fields.len()
            invariant
                i <= record.fields@.len(),
                record@.sig == code('A', 'R', 'M', 'A'),
                forall|j: int| 0 <= j < i ==> !#[trigger] upper_body_skin_flag(record@.fields[j]),
            decreases record.fields@.len() - i,
        {
            assert(record@.fields[i as int] == record.fields@[i as int]@);
            if sig_is(record.fields[i].sig.0, 'X', 'F', 'L', 'G') {
                let hit = match &record.fields[i].value {
                    FieldValue::Uint(f) => *f & 2 != 0,
                    FieldValue::Int(f) => *f >= 0 && (*f as u64) & 2 != 0,
                    _ => false,
                };
                if hit {
                    assert(upper_body_skin_flag(record@.fields[i as int]));
                    assert(has_upper_body_skin(record@));
                    return true;
                }
            }
            i = i + 1;
        }
        false
    }

    /// Drop FO76's upper-body skin slots from an armor addon that has one.
    pub fn normalize_arma_upper_body_skin_slots(record: &mut Record)
        ensures
            has_upper_body_skin(old(record)@) ==> final(record)@ == bod2_without(old(record)@, upper_body_skin_mask()),
            !has_upper_body_skin(old(record)@) ==> final(record)@ == old(record)@,
    {
        if !Self::arma_has_upper_body_skin(record) {
            return;
        }
        strip_first_bod2(record, 0xF800);
    }

    /// Keep the Pip-Boy visible under the Chinese stealth armor.
    pub fn normalize_chinese_stealth_arma_pipboy_slot(interner: &StringInterner, record: &mut Record)
        ensures
            is_chinese_stealth_arma(*interner, old(record)@) ==> final(record)@ == bod2_without(old(record)@, pipboy_mask()),
            !is_chinese_stealth_arma(*interner, old(record)@) ==> final(record)@ == old(record)@,
    {
        if !sig_is(record.sig.0, 'A', 'R', 'M', 'A') {
            return;
        }
        let mut i: usize = 0;
        while i < record.fields.len()
            invariant
                i <= record.fields@.len(),
                record@ == old(record)@,
                record@.sig == code('A', 'R', 'M', 'A'),
                forall|j: int| 0 <= j < i ==> !#[trigger] chinese_stealth_edid(*interner, record@.fields[j]),
            decreases record.fields@.len() - i,
        {
            assert(record@.fields[i as int] == record.fields@[i as int]@);
            if sig_is(record.fields[i].sig.0, 'E', 'D', 'I', 'D') {
                let hit = match &record.fields[i].value {
                    FieldValue::String(sym) => match interner.resolve(*sym) {
                        Some(t) => bytes_eq(t, lit("AA_ArmorChineseStealth")),
                        None => false,
                    },
                    FieldValue::Bytes(b) => utf8_valid(b.as_slice()) && {
                        let t = trim_nul_suffix(b.as_slice());
                        bytes_eq(t.as_slice(), lit("AA_ArmorChineseStealth"))
                    },
                    _ => false,
                };
                if hit {
                    assert(chinese_stealth_edid(*interner, record@.fields[i as int]));
                    assert(is_chinese_stealth_arma(*interner, record@));
                    strip_first_bod2(record, 0x4000_0000);
                    return;
                }
            }
            i = i + 1;
        }
    }
}

/// The typed form key a raw reference names: a form key as it is, an
/// integer or four bytes as a raw id in the source plugin.
pub open spec fn source_form_key_view(v: FieldView, plugin: Sym) -> Option<FieldView> {
    match v {
        FieldView::FormKey(_) => Some(v),
        FieldView::Uint(n) => if n <= u32::MAX { Some(FieldView::FormKey(raw_form_key(n as u32, plugin))) } else { None },
        FieldView::Int(n) => if 0 <= n <= u32::MAX {
            Some(FieldView::FormKey(raw_form_key(n as u32, plugin)))
        } else {
            None
        },
        FieldView::Bytes(b) => if b.len() == 4 { Some(FieldView::FormKey(raw_form_key(le32(b, 0), plugin))) } else { None },
        _ => None,
    }
}

/// A raw five-byte NPC faction row as `faction` and `rank`.
pub open spec fn faction_view(held: Seq<Seq<u8>>, v: FieldView, plugin: Sym) -> Option<FieldView> {
    match v {
        FieldView::Bytes(b) => if b.len() == 5 {
            Some(FieldView::Struct(seq![
                (handle_of(held, "faction".spec_bytes()), FieldView::FormKey(raw_form_key(le32(b, 0), plugin))),
                (handle_of(held, "rank".spec_bytes()), FieldView::Bytes(b.subrange(4, 5))),
            ]))
        } else {
            None
        },
        _ => None,
    }
}

/// A raw eight-byte container row as `item` and `count`.
pub open spec fn container_view(held: Seq<Seq<u8>>, v: FieldView, plugin: Sym) -> Option<FieldView> {
    match v {
        FieldView::Bytes(b) => if b.len() == 8 {
            Some(FieldView::Struct(seq![
                (handle_of(held, "item".spec_bytes()), FieldView::FormKey(raw_form_key(le32(b, 0), plugin))),
                (handle_of(held, "count".spec_bytes()), FieldView::Bytes(b.subrange(4, 8))),
            ]))
        } else {
            None
        },
        _ => None,
    }
}

/// A raw NPC perk row (at least a raw id and optionally a rank byte, or an
/// integer id) as a perk and a one-byte rank.
pub open spec fn perk_view(v: FieldView, plugin: Sym, perk_key: Sym, rank_key: Sym) -> Option<FieldView> {
    let parts: Option<(u32, u8)> = match v {
        FieldView::Bytes(b) => if b.len() >= 4 {
            Some((le32(b, 0), if b.len() >= 5 { b[4] } else { 0u8 }))
        } else {
            None
        },
        FieldView::Uint(n) => if n <= u32::MAX { Some((n as u32, 0u8)) } else { None },
        FieldView::Int(n) => if 0 <= n <= u32::MAX { Some((n as u32, 0u8)) } else { None },
        _ => None,
    };
    match parts {
        Some((raw, rank)) => Some(FieldView::Struct(seq![
            (perk_key, FieldView::FormKey(raw_form_key(raw, plugin))),
            (rank_key, FieldView::Bytes(seq![rank])),
        ])),
        None => None,
    }
}

/// The typed form key a raw reference names, if any.
pub fn source_form_key_value(value: &FieldValue, source_plugin: Sym) -> (r: Option<FieldValue>)
    ensures
        r is Some <==> source_form_key_view(value@, source_plugin) is Some,
        r matches Some(v) ==> source_form_key_view(value@, source_plugin) == Some(v@),
{
    match value {
        FieldValue::FormKey(fk) => Some(FieldValue::FormKey(*fk)),
        FieldValue::Uint(n) => if *n <= 0xffff_ffff {
            Some(FieldValue::FormKey(source_form_key_from_raw(*n as u32, source_plugin)))
        } else {
            None
        },
        FieldValue::Int(n) => if 0 <= *n && *n <= 0xffff_ffff {
            Some(FieldValue::FormKey(source_form_key_from_raw(*n as u32, source_plugin)))
        } else {
            None
        },
        FieldValue::Bytes(b) => if b.len() == 4 {
            Some(FieldValue::FormKey(source_form_key_from_raw(read_u32_le(b.as_slice(), 0), source_plugin)))
        } else {
            None
        },
        _ => None,
    }
}


fn byte_slice_value(b: &Vec<u8>, from: usize, to: usize) -> (r: FieldValue)
    requires
        from <= to <= b@.len(),
    ensures
        r@ == FieldView::Bytes(b@.subrange(from as int, to as int)),
{
    let mut out: Vec<u8> = Vec::new();
    let mut i: usize = from;
    while i < to
        invariant
            from <= i <= to <= b@.len(),
            out@ == b@.subrange(from as int, i as int),
        decreases to - i,
    {
        out.push(b[i]);
        i = i + 1;
        assert(out@ =~= b@.subrange(from as int, i as int));
    }
    FieldValue::Bytes(out)
}

/// A raw NPC faction row as a typed struct.
/// The names it writes are interned first.
pub fn npc_faction_value(interner: &mut StringInterner, value: &FieldValue, source_plugin: Sym) -> (r: Option<FieldValue>)
    requires
        old(interner).wf(),
        old(interner)@.len() + 2 <= u32::MAX,
    ensures
        final(interner).wf(),
        final(interner)@ == intern_all(old(interner)@, seq!["faction".spec_bytes(), "rank".spec_bytes()]),
        r is Some <==> faction_view(final(interner)@, value@, source_plugin) is Some,
        r matches Some(v) ==> faction_view(final(interner)@, value@, source_plugin) == Some(v@),
{
    let names: Vec<&str> = vec!["faction", "rank"];
    intern_each(interner, names.as_slice());
    proof {
        assert(strs_bytes(names@) =~= seq!["faction".spec_bytes(), "rank".spec_bytes()]);
        assert(interner@.contains(strs_bytes(names@)[0]));
        assert(interner@.contains(strs_bytes(names@)[1]));
    }
    npc_faction_value_interned(interner, value, source_plugin)
}

/// A raw NPC faction row as a typed struct.
pub(crate) fn npc_faction_value_interned(interner: &StringInterner, value: &FieldValue, source_plugin: Sym) -> (r: Option<FieldValue>)
    requires
        interner.wf(),
        interner@.contains("faction".spec_bytes()),
        interner@.contains("rank".spec_bytes()),
    ensures
        r is Some <==> faction_view(interner@, value@, source_plugin) is Some,
        r matches Some(v) ==> faction_view(interner@, value@, source_plugin) == Some(v@),
{
    let FieldValue::Bytes(b) = value else {
        return None;
    };
    if b.len() != 5 {
        return None;
    }
    let raw = read_u32_le(b.as_slice(), 0);
    let r = FieldValue::Struct(vec![
        (name_handle(interner, "faction"), FieldValue::FormKey(source_form_key_from_raw(raw, source_plugin))),
        (name_handle(interner, "rank"), byte_slice_value(b, 4, 5)),
    ]);
    proof {
        lemma_struct_view(r);
        assert(named_view(r->Struct_0@) =~= faction_view(interner@, value@, source_plugin)->0->Struct_0);
    }
    Some(r)
}

/// A raw container row as a typed struct.
/// The names it writes are interned first.
pub fn npc_container_value(interner: &mut StringInterner, value: &FieldValue, source_plugin: Sym) -> (r: Option<FieldValue>)
    requires
        old(interner).wf(),
        old(interner)@.len() + 2 <= u32::MAX,
    ensures
        final(interner).wf(),
        final(interner)@ == intern_all(old(interner)@, seq!["item".spec_bytes(), "count".spec_bytes()]),
        r is Some <==> container_view(final(interner)@, value@, source_plugin) is Some,
        r matches Some(v) ==> container_view(final(interner)@, value@, source_plugin) == Some(v@),
{
    let names: Vec<&str> = vec!["item", "count"];
    intern_each(interner, names.as_slice());
    proof {
        assert(strs_bytes(names@) =~= seq!["item".spec_bytes(), "count".spec_bytes()]);
        assert(interner@.contains(strs_bytes(names@)[0]));
        assert(interner@.contains(strs_bytes(names@)[1]));
    }
    npc_container_value_interned(interner, value, source_plugin)
}

/// A raw container row as a typed struct.
pub(crate) fn npc_container_value_interned(interner: &StringInterner, value: &FieldValue, source_plugin: Sym) -> (r: Option<FieldValue>)
    requires
        interner.wf(),
        interner@.contains("item".spec_bytes()),
        interner@.contains("count".spec_bytes()),
    ensures
        r is Some <==> container_view(interner@, value@, source_plugin) is Some,
        r matches Some(v) ==> container_view(interner@, value@, source_plugin) == Some(v@),
{
    let FieldValue::Bytes(b) = value else {
        return None;
    };
    if b.len() != 8 {
        return None;
    }
    let raw = read_u32_le(b.as_slice(), 0);
    let r = FieldValue::Struct(vec![
        (name_handle(interner, "item"), FieldValue::FormKey(source_form_key_from_raw(raw, source_plugin))),
        (name_handle(interner, "count"), byte_slice_value(b, 4, 8)),
    ]);
    proof {
        lemma_struct_view(r);
        assert(named_view(r->Struct_0@) =~= container_view(interner@, value@, source_plugin)->0->Struct_0);
    }
    Some(r)
}

/// A raw NPC perk row as a typed struct.
pub fn npc_perk_entry_value(value: &FieldValue, source_plugin: Sym, perk_key: Sym, rank_key: Sym) -> (r: Option<FieldValue>)
    ensures
        r is Some <==> perk_view(value@, source_plugin, perk_key, rank_key) is Some,
        r matches Some(v) ==> perk_view(value@, source_plugin, perk_key, rank_key) == Some(v@),
{
    let (raw, rank): (u32, u8) = match value {
        FieldValue::Bytes(b) => if b.len() >= 4 {
            (read_u32_le(b.as_slice(), 0), if b.len() >= 5 { b[4] } else { 0u8 })
        } else {
            return None;
        },
        FieldValue::Uint(n) => if *n <= 0xffff_ffff { (*n as u32, 0u8) } else { return None },
        FieldValue::Int(n) => if 0 <= *n && *n <= 0xffff_ffff { (*n as u32, 0u8) } else { return None },
        _ => {
            return None;
        },
    };
    let rank_bytes: Vec<u8> = vec![rank];
    assert(rank_bytes@ =~= seq![rank]);
    let r = FieldValue::Struct(vec![
        (perk_key, FieldValue::FormKey(source_form_key_from_raw(raw, source_plugin))),
        (rank_key, FieldValue::Bytes(rank_bytes)),
    ]);
    proof {
        lemma_struct_view(r);
        assert(named_view(r->Struct_0@) =~= perk_view(value@, source_plugin, perk_key, rank_key)->0->Struct_0);
    }
    Some(r)
}


/// A value replaced by `f` when `f` gives one.
pub open spec fn replaced(v: FieldView, f: Option<FieldView>) -> FieldView {
    match f {
        Some(w) => w,
        None => v,
    }
}

/// An NPC entry with its raw references typed: `SNAM` factions, `CNTO`
/// items and an `INAM` form.
pub open spec fn npc_ref_entry(held: Seq<Seq<u8>>, plugin: Sym, e: EntryView) -> EntryView {
    if e.sig == code('S', 'N', 'A', 'M') {
        EntryView { value: replaced(e.value, faction_view(held, e.value, plugin)), ..e }
    } else if e.sig == code('C', 'N', 'T', 'O') {
        EntryView { value: replaced(e.value, container_view(held, e.value, plugin)), ..e }
    } else if e.sig == code('I', 'N', 'A', 'M') {
        EntryView { value: replaced(e.value, source_form_key_view(e.value, plugin)), ..e }
    } else {
        e
    }
}

/// A container or furniture entry with its raw `CNTO` rows typed.
pub open spec fn cont_ref_entry(held: Seq<Seq<u8>>, plugin: Sym, e: EntryView) -> EntryView {
    if e.sig == code('C', 'N', 'T', 'O') {
        EntryView { value: replaced(e.value, container_view(held, e.value, plugin)), ..e }
    } else {
        e
    }
}

/// An NPC entry with its raw `PRKR` perk row typed.
pub open spec fn perk_entry(held: Seq<Seq<u8>>, plugin: Sym, e: EntryView) -> EntryView {
    if e.sig == code('P', 'R', 'K', 'R') {
        EntryView {
            value: replaced(
                e.value,
                perk_view(e.value, plugin, handle_of(held, "Perk".spec_bytes()), handle_of(held, "Rank".spec_bytes())),
            ),
            ..e
        }
    } else {
        e
    }
}

/// A note entry with its raw `SNAM` scene typed.
pub open spec fn note_entry(plugin: Sym, e: EntryView) -> EntryView {
    if e.sig == code('S', 'N', 'A', 'M') {
        EntryView { value: replaced(e.value, source_form_key_view(e.value, plugin)), ..e }
    } else {
        e
    }
}

/// The assassin's `ZNAM` melee combat style swapped for the ranged one.
pub open spec fn assassin_entry(e: EntryView) -> EntryView {
    if e.sig == code('Z', 'N', 'A', 'M') && (e.value matches FieldView::FormKey(fk) && fk.local == 0x047165) {
        EntryView { value: FieldView::FormKey(FormKey { local: 0x03183B, ..e.value->FormKey_0 }), ..e }
    } else {
        e
    }
}

/// Whether a record is the RD01 assassin NPC.
pub open spec fn is_rd01_assassin(interner: StringInterner, r: RecordView) -> bool {
    &&& r.sig == code('N', 'P', 'C', '_')
    &&& r.form_key.local == 0x78BD9B
    &&& r.eid is Some
    &&& interner.spec_resolve(r.eid->0) == Some("RD01_Enc04_Assassin".spec_bytes())
}

/// Which entry rewrite a record-level pass applies.
pub enum EntryPass {
    NpcRefs,
    ContRefs,
    Perks,
    NoteScene,
    Assassin,
}

/// The entry rewrite of a pass.
pub open spec fn pass_entry(pass: EntryPass, held: Seq<Seq<u8>>, plugin: Sym, e: EntryView) -> EntryView {
    match pass {
        EntryPass::NpcRefs => npc_ref_entry(held, plugin, e),
        EntryPass::ContRefs => cont_ref_entry(held, plugin, e),
        EntryPass::Perks => perk_entry(held, plugin, e),
        EntryPass::NoteScene => note_entry(plugin, e),
        EntryPass::Assassin => assassin_entry(e),
    }
}

/// Whether the interner holds the names a pass may write.
pub open spec fn pass_ready(pass: EntryPass, interner: StringInterner) -> bool {
    let held = interner@;
    match pass {
        EntryPass::NpcRefs => interner.wf() && held.contains("faction".spec_bytes()) && held.contains("rank".spec_bytes())
            && held.contains("item".spec_bytes()) && held.contains("count".spec_bytes()),
        EntryPass::ContRefs => interner.wf() && held.contains("item".spec_bytes()) && held.contains("count".spec_bytes()),
        EntryPass::Perks => interner.wf() && held.contains("Perk".spec_bytes()) && held.contains("Rank".spec_bytes()),
        _ => true,
    }
}

/// A record with every entry rewritten by a pass.
pub open spec fn record_passed(pass: EntryPass, held: Seq<Seq<u8>>, r: RecordView) -> RecordView {
    RecordView { fields: Seq::new(r.fields.len(), |i: int| pass_entry(pass, held, r.form_key.plugin, r.fields[i])), ..r }
}

fn pass_entry_exec(pass: &EntryPass, interner: &StringInterner, plugin: Sym, e: FieldEntry) -> (r: FieldEntry)
    requires
        pass_ready(*pass, *interner),
    ensures
        r@ == pass_entry(*pass, interner@, plugin, e@),
{
    let s = e.sig.0;
    let replacement: Option<FieldValue> = match pass {
        EntryPass::NpcRefs => if sig_is(s, 'S', 'N', 'A', 'M') {
            npc_faction_value_interned(interner, &e.value, plugin)
        } else if sig_is(s, 'C', 'N', 'T', 'O') {
            npc_container_value_interned(interner, &e.value, plugin)
        } else if sig_is(s, 'I', 'N', 'A', 'M') {
            source_form_key_value(&e.value, plugin)
        } else {
            None
        },
        EntryPass::ContRefs => if sig_is(s, 'C', 'N', 'T', 'O') {
            npc_container_value_interned(interner, &e.value, plugin)
        } else {
            None
        },
        EntryPass::Perks => if sig_is(s, 'P', 'R', 'K', 'R') {
            npc_perk_entry_value(&e.value, plugin, name_handle(interner, "Perk"), name_handle(interner, "Rank"))
        } else {
            None
        },
        EntryPass::NoteScene => if sig_is(s, 'S', 'N', 'A', 'M') {
            source_form_key_value(&e.value, plugin)
        } else {
            None
        },
        EntryPass::Assassin => if sig_is(s, 'Z', 'N', 'A', 'M') {
            match &e.value {
                FieldValue::FormKey(fk) => if fk.local == 0x047165 {
                    Some(FieldValue::FormKey(FormKey { local: 0x03183B, plugin: fk.plugin }))
                } else {
                    None
                },
                _ => None,
            }
        } else {
            None
        },
    };
    match replacement {
        Some(v) => FieldEntry { sig: e.sig, value: v },
        None => e,
    }
}

fn apply_pass(pass: EntryPass, interner: &StringInterner, record: &mut Record)
    requires
        pass_ready(pass, *interner),
    ensures
        final(record)@ == record_passed(pass, interner@, old(record)@),
{
    let ghost r0 = record@;
    let ghost orig = r0.fields;
    let plugin = record.form_key.plugin;
    let mut rest: Vec<FieldEntry> = Vec::new();
    core::mem::swap(&mut record.fields, &mut rest);
    let n = rest.len();
    let mut idx: usize = 0;
    while idx < n
        invariant
            orig.len() == n,
            idx <= n,
            rest@.len() == n - idx,
            forall|j: int| 0 <= j < rest@.len() ==> rest@[j]@ == orig[idx + j],
            record.fields@.len() == idx,
            forall|j: int| 0 <= j < idx ==> #[trigger] record.fields@[j]@ == pass_entry(pass, interner@, plugin, orig[j]),
            pass_ready(pass, *interner),
            plugin == r0.form_key.plugin,
            record@.sig == r0.sig,
            record@.form_key == r0.form_key,
            record@.eid == r0.eid,
        decreases n - idx,
    {
        let e = rest.remove(0);
        let m = pass_entry_exec(&pass, interner, plugin, e);
        record.fields.push(m);
        idx = idx + 1;
    }
    assert(record@.fields =~= record_passed(pass, interner@, r0).fields);
}

impl Fo76Fo4Hook {
    /// Type the raw perk rows of an NPC.
    /// The names it writes are interned first.
    pub fn normalize_npc_perk_entries(interner: &mut StringInterner, record: &mut Record)
        requires
            old(interner).wf(),
            old(interner)@.len() + 2 <= u32::MAX,
        ensures
            final(interner).wf(),
            final(interner)@ == intern_all(old(interner)@, seq!["Perk".spec_bytes(), "Rank".spec_bytes()]),
            old(record)@.sig == code('N', 'P', 'C', '_') ==> final(record)@ == record_passed(EntryPass::Perks, final(interner)@, old(record)@),
            old(record)@.sig != code('N', 'P', 'C', '_') ==> final(record)@ == old(record)@,
    {
        let names: Vec<&str> = vec!["Perk", "Rank"];
        intern_each(interner, names.as_slice());
        proof {
            assert(strs_bytes(names@) =~= seq!["Perk".spec_bytes(), "Rank".spec_bytes()]);
            assert(interner@.contains(strs_bytes(names@)[0]));
            assert(interner@.contains(strs_bytes(names@)[1]));
        }
        Self::normalize_npc_perk_entries_interned(interner, record)
    }

    /// Type the raw perk rows of an NPC.
    pub(crate) fn normalize_npc_perk_entries_interned(interner: &StringInterner, record: &mut Record)
        requires
            interner.wf(),
            interner@.contains("Perk".spec_bytes()),
            interner@.contains("Rank".spec_bytes()),
        ensures
            old(record)@.sig == code('N', 'P', 'C', '_') ==> final(record)@ == record_passed(EntryPass::Perks, interner@, old(record)@),
            old(record)@.sig != code('N', 'P', 'C', '_') ==> final(record)@ == old(record)@,
    {
        if sig_is(record.sig.0, 'N', 'P', 'C', '_') {
            apply_pass(EntryPass::Perks, interner, record);
        }
    }

    /// Type the raw faction, item and form references of an NPC.
    /// The names it writes are interned first.
    pub fn normalize_npc_raw_form_refs(interner: &mut StringInterner, record: &mut Record)
        requires
            old(interner).wf(),
            old(interner)@.len() + 4 <= u32::MAX,
        ensures
            final(interner).wf(),
            final(interner)@ == intern_all(old(interner)@, seq!["faction".spec_bytes(), "rank".spec_bytes(), "item".spec_bytes(), "count".spec_bytes()]),
            old(record)@.sig == code('N', 'P', 'C', '_') ==> final(record)@ == record_passed(EntryPass::NpcRefs, final(interner)@, old(record)@),
            old(record)@.sig != code('N', 'P', 'C', '_') ==> final(record)@ == old(record)@,
    {
        let names: Vec<&str> = vec!["faction", "rank", "item", "count"];
        intern_each(interner, names.as_slice());
        proof {
            assert(strs_bytes(names@) =~= seq!["faction".spec_bytes(), "rank".spec_bytes(), "item".spec_bytes(), "count".spec_bytes()]);
            assert(interner@.contains(strs_bytes(names@)[0]));
            assert(interner@.contains(strs_bytes(names@)[1]));
            assert(interner@.contains(strs_bytes(names@)[2]));
            assert(interner@.contains(strs_bytes(names@)[3]));
        }
        Self::normalize_npc_raw_form_refs_interned(interner, record)
    }

    /// Type the raw faction, item and form references of an NPC.
    pub(crate) fn normalize_npc_raw_form_refs_interned(interner: &StringInterner, record: &mut Record)
        requires
            interner.wf(),
            interner@.contains("faction".spec_bytes()),
            interner@.contains("rank".spec_bytes()),
            interner@.contains("item".spec_bytes()),
            interner@.contains("count".spec_bytes()),
        ensures
            old(record)@.sig == code('N', 'P', 'C', '_') ==> final(record)@ == record_passed(EntryPass::NpcRefs, interner@, old(record)@),
            old(record)@.sig != code('N', 'P', 'C', '_') ==> final(record)@ == old(record)@,
    {
        if sig_is(record.sig.0, 'N', 'P', 'C', '_') {
            apply_pass(EntryPass::NpcRefs, interner, record);
        }
    }

    /// Type the raw item rows of a container or furniture.
    /// The names it writes are interned first.
    pub fn normalize_cont_raw_form_refs(interner: &mut StringInterner, record: &mut Record)
        requires
            old(interner).wf(),
            old(interner)@.len() + 2 <= u32::MAX,
        ensures
            final(interner).wf(),
            final(interner)@ == intern_all(old(interner)@, seq!["item".spec_bytes(), "count".spec_bytes()]),
            (old(record)@.sig == code('C', 'O', 'N', 'T') || old(record)@.sig == code('F', 'U', 'R', 'N'))
                ==> final(record)@ == record_passed(EntryPass::ContRefs, final(interner)@, old(record)@),
            !(old(record)@.sig == code('C', 'O', 'N', 'T') || old(record)@.sig == code('F', 'U', 'R', 'N'))
                ==> final(record)@ == old(record)@,
    {
        let names: Vec<&str> = vec!["item", "count"];
        intern_each(interner, names.as_slice());
        proof {
            assert(strs_bytes(names@) =~= seq!["item".spec_bytes(), "count".spec_bytes()]);
            assert(interner@.contains(strs_bytes(names@)[0]));
            assert(interner@.contains(strs_bytes(names@)[1]));
        }
        Self::normalize_cont_raw_form_refs_interned(interner, record)
    }

    /// Type the raw item rows of a container or furniture.
    pub(crate) fn normalize_cont_raw_form_refs_interned(interner: &StringInterner, record: &mut Record)
        requires
            interner.wf(),
            interner@.contains("item".spec_bytes()),
            interner@.contains("count".spec_bytes()),
        ensures
            (old(record)@.sig == code('C', 'O', 'N', 'T') || old(record)@.sig == code('F', 'U', 'R', 'N'))
                ==> final(record)@ == record_passed(EntryPass::ContRefs, interner@, old(record)@),
            !(old(record)@.sig == code('C', 'O', 'N', 'T') || old(record)@.sig == code('F', 'U', 'R', 'N'))
                ==> final(record)@ == old(record)@,
    {
        if sig_is(record.sig.0, 'C', 'O', 'N', 'T') || sig_is(record.sig.0, 'F', 'U', 'R', 'N') {
            apply_pass(EntryPass::ContRefs, interner, record);
        }
    }

    /// Type a note's raw scene reference.
    pub fn normalize_note_scene_ref(record: &mut Record)
        ensures
            old(record)@.sig == code('N', 'O', 'T', 'E') ==> final(record)@ == record_passed(
                EntryPass::NoteScene,
                Seq::empty(),
                old(record)@,
            ),
            old(record)@.sig != code('N', 'O', 'T', 'E') ==> final(record)@ == old(record)@,
    {
        if sig_is(record.sig.0, 'N', 'O', 'T', 'E') {
            let interner = StringInterner::new();
            apply_pass(EntryPass::NoteScene, &interner, record);
        }
    }

    /// Give the RD01 assassin the ranged raider combat style.
    pub fn normalize_rd01_assassin_combat_style(interner: &StringInterner, record: &mut Record)
        ensures
            is_rd01_assassin(*interner, old(record)@) ==> final(record)@ == record_passed(
                EntryPass::Assassin,
                interner@,
                old(record)@,
            ),
            !is_rd01_assassin(*interner, old(record)@) ==> final(record)@ == old(record)@,
    {
        if !sig_is(record.sig.0, 'N', 'P', 'C', '_') || record.form_key.local != 0x78BD9B {
            return;
        }
        let Some(sym) = record.eid else {
            return;
        };
        let named = match interner.resolve(sym) {
            Some(t) => bytes_eq(t, lit("RD01_Enc04_Assassin")),
            None => false,
        };
        if !named {
            return;
        }
        apply_pass(EntryPass::Assassin, interner, record);
    }
}


/// The health a destructible header holds: a raw header's first four bytes
/// as an `i32`; a struct's `health` member, or else its `header` member's
/// health; any other value read as an `i64`.
pub open spec fn header_health(interner: StringInterner, v: FieldView) -> Option<i64>
    decreases v,
{
    match v {
        FieldView::Bytes(b) => if b.len() >= 4 { Some(le32_signed(b, 0) as i64) } else { None },
        FieldView::Struct(fields) => {
            let health = match canonical_index(interner, fields, "health".spec_bytes()) {
                Some(j) => if 0 <= j < fields.len() { value_to_i64(fields[j].1) } else { None },
                None => None,
            };
            match health {
                Some(h) => Some(h),
                None => match canonical_index(interner, fields, "header".spec_bytes()) {
                    Some(j) => if 0 <= j < fields.len() { header_health(interner, fields[j].1) } else { None },
                    None => None,
                },
            }
        },
        _ => value_to_i64(v),
    }
}

/// The health a destructible header holds, if it reads as one.
pub fn destructible_header_health(interner: &StringInterner, value: &FieldValue) -> (r: Option<i64>)
    ensures
        r == header_health(*interner, value@),
    decreases value,
{
    match value {
        FieldValue::Bytes(b) => if b.len() >= 4 {
            let raw = read_u32_le(b.as_slice(), 0);
            let signed: i64 = if raw >= 0x8000_0000 { raw as i64 - 0x1_0000_0000 } else { raw as i64 };
            Some(signed)
        } else {
            None
        },
        FieldValue::Struct(fields) => {
            proof {
                lemma_struct_view(*value);
            }
            let health = match field_index_canonical(fields, lit("health"), interner) {
                Some(j) => {
                    assert(named_view(fields@)[j as int].1 == fields@[j as int].1@);
                    field_value_to_i64(&fields[j].1)
                },
                None => None,
            };
            if health.is_some() {
                return health;
            }
            match field_index_canonical(fields, lit("header"), interner) {
                Some(j) => {
                    proof {
                        let ghost all = value->Struct_0;
                        assert(decreases_to!(all => all@));
                        assert(decreases_to!(all@ => all@[j as int]));
                        assert(decreases_to!(all@[j as int] => all@[j as int].1));
                        assert(named_view(fields@)[j as int].1 == fields@[j as int].1@);
                    }
                    destructible_header_health(interner, &fields[j].1)
                },
                None => None,
            }
        },
        _ => field_value_to_i64(value),
    }
}

/// Subrecords of a destructible block.
pub open spec fn destructible_group_sig(s: [u8; 4]) -> bool {
    s == code('D', 'E', 'S', 'T') || s == code('D', 'A', 'M', 'C') || s == code('D', 'S', 'T', 'D')
        || s == code('D', 'S', 'T', 'A') || s == code('D', 'M', 'D', 'L') || s == code('D', 'M', 'D', 'T')
        || s == code('D', 'M', 'D', 'C') || s == code('D', 'M', 'D', 'S') || s == code('D', 'S', 'T', 'F')
        || s == code('H', 'G', 'L', 'B') || s == code('E', 'N', 'L', 'T') || s == code('E', 'N', 'L', 'S')
        || s == code('A', 'U', 'U', 'V')
}

fn is_destructible_group_sig(s: [u8; 4]) -> (r: bool)
    ensures
        r == destructible_group_sig(s),
{
    sig_is(s, 'D', 'E', 'S', 'T') || sig_is(s, 'D', 'A', 'M', 'C') || sig_is(s, 'D', 'S', 'T', 'D')
        || sig_is(s, 'D', 'S', 'T', 'A') || sig_is(s, 'D', 'M', 'D', 'L') || sig_is(s, 'D', 'M', 'D', 'T')
        || sig_is(s, 'D', 'M', 'D', 'C') || sig_is(s, 'D', 'M', 'D', 'S') || sig_is(s, 'D', 'S', 'T', 'F')
        || sig_is(s, 'H', 'G', 'L', 'B') || sig_is(s, 'E', 'N', 'L', 'T') || sig_is(s, 'E', 'N', 'L', 'S')
        || sig_is(s, 'A', 'U', 'U', 'V')
}

/// The entries kept so far and whether a zero-health block is being dropped.
pub open spec fn zero_health_scan(interner: StringInterner, f: Seq<EntryView>) -> (Seq<EntryView>, bool)
    decreases f.len(),
{
    if f.len() == 0 {
        (Seq::empty(), false)
    } else {
        let (out, dropping) = zero_health_scan(interner, f.drop_last());
        let e = f.last();
        if e.sig == code('D', 'E', 'S', 'T') {
            if header_health(interner, e.value) == Some(0i64) {
                (out, true)
            } else {
                (out.push(e), false)
            }
        } else if dropping && destructible_group_sig(e.sig) {
            (out, true)
        } else {
            (out.push(e), false)
        }
    }
}

impl Fo76Fo4Hook {
    /// Drop a container's destructible blocks whose health is zero.
    pub fn strip_zero_health_cont_destructibles(interner: &StringInterner, record: &mut Record)
        ensures
            old(record)@.sig == code('C', 'O', 'N', 'T') ==> final(record)@ == (RecordView {
                fields: zero_health_scan(*interner, old(record)@.fields).0,
                ..old(record)@
            }),
            old(record)@.sig != code('C', 'O', 'N', 'T') ==> final(record)@ == old(record)@,
    {
        if !sig_is(record.sig.0, 'C', 'O', 'N', 'T') {
            return;
        }
        let ghost orig = record@.fields;
        let mut rest: Vec<FieldEntry> = Vec::new();
        core::mem::swap(&mut record.fields, &mut rest);
        let n = rest.len();
        let mut kept: Vec<FieldEntry> = Vec::new();
        let mut dropping = false;
        let mut idx: usize = 0;
        assert(entries_view(kept@) =~= Seq::<EntryView>::empty());
        while idx < n
            invariant
                orig.len() == n,
                idx <= n,
                rest@.len() == n - idx,
                forall|j: int| 0 <= j < rest@.len() ==> rest@[j]@ == orig[idx + j],
                entries_view(kept@) == zero_health_scan(*interner, orig.take(idx as int)).0,
                dropping == zero_health_scan(*interner, orig.take(idx as int)).1,
            decreases n - idx,
        {
            let e = rest.remove(0);
            proof {
                assert(orig.take(idx + 1).drop_last() =~= orig.take(idx as int));
                assert(orig.take(idx + 1).last() == orig[idx as int]);
            }
            let s = e.sig.0;
            let keep = if sig_is(s, 'D', 'E', 'S', 'T') {
                dropping = match destructible_header_health(interner, &e.value) {
                    Some(h) => h == 0,
                    None => false,
                };
                !dropping
            } else if dropping && is_destructible_group_sig(s) {
                false
            } else {
                dropping = false;
                true
            };
            if keep {
                crate::fields::push_entry(&mut kept, e);
            }
            idx = idx + 1;
        }
        assert(orig.take(n as int) =~= orig);
        record.fields = kept;
    }
}

} // verus!
