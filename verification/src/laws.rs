//! Properties of the passes that hold across calls: what a step leaves
//! behind, and which steps change nothing when run a second time.
use vstd::prelude::*;
use crate::bytes::{le16, lemma_le16_splice, lemma_le32_of_bytes, lemma_le32_splice, splice, u16_bytes};
use crate::cndf::{outside_conditions, outside_entries};
use crate::conditions::{dropping_after, is_condition_string_sig, drops_condition, condition_function, incompatible_function, citc_with_count, condition_count, condition_mask, is_condition_sig, remapped_condition_entry, without_incompatible_conditions};
use crate::retain::kept;
use crate::fields::{first_with_sig, has_sig, lemma_first_where_bounds, lemma_first_with_sig};
use crate::leveled::{fo4_lvlo, following_u16, leveled_converted, leveled_count, leveled_out, leveled_sig, lvlo_converted, lvlo_reference, lvlo_u16, remapped_lvlo_reference, synced_llct};
use crate::values::{value_to_u32, with_count};
use crate::model::{code, EntryView, FieldView, FormKey, RecordView, Sym};
use crate::furniture::{has_fo4_keyword, keyword_in_items, keyword_total, names_fo4_master, needs_player_path, player_path_added, player_path_entry, raw_keyword_row, synced_keywords, with_player_path};
use crate::bytes::{le32, u32_bytes};
use crate::normalize::{idlf_masked, map_fields};
use crate::omod::{
    formkey_item_matches, keeps_row, kept_properties, mstt_data_dropped, mstt_data_entry, unmatched_items,
    ObjectModPropertyTarget,
};
use crate::quest::{forced_autostart, suppressed_autostart};
use crate::strip::{global_drop_sig, keep_only, wrld_runtime_table_sig};
use crate::hook::{global_drop_step, idlm_step, wrld_step};
use crate::text::{handle_of, StringInterner};
use crate::scenes::{npc_slot, player_slot, row_split, scen_row_out, slotted};
use crate::lights::fade_ensured;
use vstd::string::StringSliceAdditionalSpecFns;

verus! {

proof fn lemma_filter_keeps<A>(s: Seq<A>, p: spec_fn(A) -> bool)
    ensures
        forall|j: int| 0 <= j < s.filter(p).len() ==> p(#[trigger] s.filter(p)[j]),
        s.filter(p).filter(p) == s.filter(p),
    decreases s.len(),
{
    reveal(Seq::filter);
    if s.len() > 0 {
        let t = s.drop_last();
        lemma_filter_keeps(t, p);
        let f = s.filter(p);
        assert(f == if p(s.last()) { t.filter(p).push(s.last()) } else { t.filter(p) });
        assert forall|j: int| 0 <= j < f.len() implies p(#[trigger] f[j]) by {
            if p(s.last()) && j == f.len() - 1 {
            } else {
                assert(f[j] == t.filter(p)[j]);
            }
        }
        if p(s.last()) {
            assert(f.drop_last() =~= t.filter(p));
            assert(f.last() == s.last());
            assert(f.filter(p) == if p(f.last()) { f.drop_last().filter(p).push(f.last()) } else { f.drop_last().filter(p) });
        } else {
            assert(f.filter(p) == t.filter(p).filter(p));
        }
    } else {
        assert(s.filter(p).filter(p) =~= s.filter(p));
    }
}

/// After the global drop no subrecord of the drop list is left, and a second
/// drop changes nothing.
pub proof fn law_global_drop_complete(r: RecordView)
    ensures
        forall|j: int|
            0 <= j < global_drop_step(r).fields.len() ==> !global_drop_sig(#[trigger] global_drop_step(r).fields[j].sig),
        global_drop_step(global_drop_step(r)) == global_drop_step(r),
{
    let p = |e: EntryView| !global_drop_sig(e.sig);
    lemma_filter_keeps(r.fields, p);
    let once = global_drop_step(r);
    assert forall|j: int| 0 <= j < once.fields.len() implies !global_drop_sig(#[trigger] once.fields[j].sig) by {
        assert(p(r.fields.filter(p)[j]));
    }
    assert(global_drop_step(once).fields =~= once.fields);
}

/// A world space keeps none of the runtime tables FO4 rebuilds, and a second
/// strip changes nothing.
pub proof fn law_wrld_tables_gone(r: RecordView)
    requires
        r.sig == code('W', 'R', 'L', 'D'),
    ensures
        forall|j: int|
            0 <= j < wrld_step(r).fields.len() ==> !wrld_runtime_table_sig(#[trigger] wrld_step(r).fields[j].sig),
        wrld_step(wrld_step(r)) == wrld_step(r),
{
    let p = |e: EntryView| !wrld_runtime_table_sig(e.sig);
    lemma_filter_keeps(r.fields, p);
    let once = wrld_step(r);
    assert forall|j: int| 0 <= j < once.fields.len() implies !wrld_runtime_table_sig(#[trigger] once.fields[j].sig) by {
        assert(p(r.fields.filter(p)[j]));
    }
    assert(wrld_step(once).fields =~= once.fields);
}

/// Masking the FO76-only idle flag twice is masking it once.
pub proof fn law_idlf_mask_idempotent(e: EntryView)
    ensures
        idlf_masked(idlf_masked(e)) == idlf_masked(e),
{
    if e.sig == code('I', 'D', 'L', 'F') {
        match e.value {
            FieldView::Uint(n) => {
                assert((n & !0x20u64) & !0x20u64 == n & !0x20u64) by (bit_vector);
            },
            FieldView::Int(n) => {
                assert((n & !0x20i64) & !0x20i64 == n & !0x20i64) by (bit_vector);
            },
            FieldView::Bytes(b) => {
                if b.len() == 1 {
                    let x = b[0];
                    assert((x & !0x20u8) & !0x20u8 == x & !0x20u8) by (bit_vector);
                    assert(seq![x & !0x20u8][0] == x & !0x20u8);
                    assert(seq![seq![x & !0x20u8][0] & !0x20u8] =~= seq![x & !0x20u8]);
                }
            },
            _ => {},
        }
    }
}

/// Normalizing an idle marker's flags twice is normalizing them once.
pub proof fn law_idlm_normalize_idempotent(r: RecordView)
    ensures
        idlm_step(idlm_step(r)) == idlm_step(r),
{
    if r.sig == code('I', 'D', 'L', 'M') {
        let once = idlm_step(r);
        let twice = idlm_step(once);
        assert forall|j: int| 0 <= j < r.fields.len() implies #[trigger] twice.fields[j] == once.fields[j] by {
            law_idlf_mask_idempotent(r.fields[j]);
        }
        assert(twice.fields =~= once.fields);
    }
}

proof fn lemma_splice_twice(d: Seq<u8>, p: Seq<u8>)
    requires
        p.len() <= d.len(),
    ensures
        splice(splice(d, 0, p), 0, p) == splice(d, 0, p),
{
    assert(splice(splice(d, 0, p), 0, p) =~= splice(d, 0, p));
}

/// Forcing a dialogue quest to start with the game twice is forcing it once.
pub proof fn law_forced_autostart_idempotent(dnam: Seq<u8>)
    ensures
        forced_autostart(forced_autostart(dnam)) == forced_autostart(dnam),
{
    if dnam.len() >= 2 && le16(dnam, 0) & 0x8000 != 0 {
        let x = le16(dnam, 0);
        let y = (x | 1) as u16;
        lemma_le16_splice(dnam, 0, y);
        assert((x | 1) & 0x8000 != 0) by (bit_vector)
            requires
                x & 0x8000 != 0,
        ;
        assert((y | 1) as u16 == y) by (bit_vector)
            requires
                y == x | 1,
        ;
        lemma_splice_twice(dnam, u16_bytes(y));
    }
}

/// Suppressing a quest's start with the game twice is suppressing it once.
pub proof fn law_suppressed_autostart_idempotent(dnam: Seq<u8>)
    ensures
        suppressed_autostart(suppressed_autostart(dnam)) == suppressed_autostart(dnam),
{
    if dnam.len() >= 2 {
        let x = le16(dnam, 0);
        let y = (x & 0xfffe) as u16;
        lemma_le16_splice(dnam, 0, y);
        assert((y & 0xfffe) as u16 == y) by (bit_vector)
            requires
                y == x & 0xfffe,
        ;
        lemma_splice_twice(dnam, u16_bytes(y));
    }
}

/// Filtering a form-id list leaves no item naming a dropped id, and a second
/// filter changes nothing.
pub proof fn law_formkey_filter_complete(s: Seq<FieldView>, source_plugin: Sym, ids: Seq<u32>)
    ensures
        forall|j: int|
            0 <= j < unmatched_items(s, source_plugin, ids).len() ==> !formkey_item_matches(
                #[trigger] unmatched_items(s, source_plugin, ids)[j],
                source_plugin,
                ids,
            ),
        unmatched_items(unmatched_items(s, source_plugin, ids), source_plugin, ids) == unmatched_items(
            s,
            source_plugin,
            ids,
        ),
    decreases s.len(),
{
    if s.len() > 0 {
        let t = s.drop_last();
        law_formkey_filter_complete(t, source_plugin, ids);
        let u = unmatched_items(t, source_plugin, ids);
        let f = unmatched_items(s, source_plugin, ids);
        if !formkey_item_matches(s.last(), source_plugin, ids) {
            assert(f == u.push(s.last()));
            assert(f.drop_last() =~= u);
            assert forall|j: int| 0 <= j < f.len() implies !formkey_item_matches(#[trigger] f[j], source_plugin, ids) by {
                if j < u.len() {
                    assert(f[j] == u[j]);
                }
            }
        }
    } else {
        assert(unmatched_items(s, source_plugin, ids) =~= s);
    }
}

/// Stripping a property list keeps only rows FO4 defines for the target, and
/// a second strip changes nothing.
pub proof fn law_property_strip_complete(interner: StringInterner, s: Seq<FieldView>, target: ObjectModPropertyTarget)
    ensures
        forall|j: int|
            0 <= j < kept_properties(interner, s, target).len() ==> keeps_row(
                interner,
                target,
                #[trigger] kept_properties(interner, s, target)[j],
            ),
        kept_properties(interner, kept_properties(interner, s, target), target) == kept_properties(interner, s, target),
    decreases s.len(),
{
    if s.len() > 0 {
        let t = s.drop_last();
        law_property_strip_complete(interner, t, target);
        let u = kept_properties(interner, t, target);
        let f = kept_properties(interner, s, target);
        if keeps_row(interner, target, s.last()) {
            assert(f == u.push(s.last()));
            assert(f.drop_last() =~= u);
            assert forall|j: int| 0 <= j < f.len() implies keeps_row(interner, target, #[trigger] f[j]) by {
                if j < u.len() {
                    assert(f[j] == u[j]);
                }
            }
        }
    } else {
        assert(kept_properties(interner, s, target) =~= s);
    }
}

/// An object mod keeps no data for the FO76-only `MSTT` form type.
pub proof fn law_mstt_data_gone(interner: StringInterner, r: RecordView)
    requires
        r.sig == code('O', 'M', 'O', 'D'),
    ensures
        forall|j: int|
            0 <= j < mstt_data_dropped(interner, r).fields.len() ==> !mstt_data_entry(
                interner,
                #[trigger] mstt_data_dropped(interner, r).fields[j],
            ),
{
    let p = |e: EntryView| !mstt_data_entry(interner, e);
    lemma_filter_keeps(r.fields, p);
    assert forall|j: int| 0 <= j < mstt_data_dropped(interner, r).fields.len() implies !mstt_data_entry(
        interner,
        #[trigger] mstt_data_dropped(interner, r).fields[j],
    ) by {
        assert(p(r.fields.filter(p)[j]));
    }
}

} // verus!

verus! {

proof fn lemma_kept_members(s: Seq<EntryView>, keep: Seq<bool>)
    ensures
        forall|j: int|
            #![trigger kept(s, keep)[j]]
            0 <= j < kept(s, keep).len() ==> exists|i: int| 0 <= i < s.len() && kept(s, keep)[j] == #[trigger] s[i],
    decreases s.len(),
{
    if s.len() > 0 {
        let t = s.drop_last();
        lemma_kept_members(t, keep);
        let k = kept(s, keep);
        let u = kept(t, keep);
        assert(k == if keep[s.len() - 1] { u.push(s.last()) } else { u });
        assert(s.last() == s[s.len() - 1]);
        assert forall|j: int| #![trigger k[j]] 0 <= j < k.len() implies exists|i: int| 0 <= i < s.len() && k[j] == #[trigger] s[i] by {
            if keep[s.len() - 1] && j == k.len() - 1 {
                assert(k[j] == s[s.len() - 1]);
            } else {
                assert(k[j] == u[j]);
                let i = choose|i: int| 0 <= i < t.len() && u[j] == #[trigger] t[i];
                assert(t[i] == s[i]);
            }
        }
    } else {
        assert(kept(s, keep).len() == 0);
    }
}

proof fn lemma_count_after_citc(s: Seq<EntryView>, c: u32)
    ensures
        condition_count(s.map_values(|e: EntryView| citc_with_count(e, c))) == condition_count(s),
    decreases s.len(),
{
    reveal(Seq::filter);
    let m = s.map_values(|e: EntryView| citc_with_count(e, c));
    if s.len() > 0 {
        let t = s.drop_last();
        lemma_count_after_citc(t, c);
        assert(m.drop_last() =~= t.map_values(|e: EntryView| citc_with_count(e, c)));
        assert(m.last().sig == s.last().sig);
    } else {
        assert(m.filter(|e: EntryView| is_condition_sig(e.sig)) =~= Seq::<EntryView>::empty());
        assert(s.filter(|e: EntryView| is_condition_sig(e.sig)) =~= Seq::<EntryView>::empty());
    }
}

proof fn lemma_with_count_reads(v: FieldView, c: u32)
    requires
        !(v is Struct),
    ensures
        value_to_u32(with_count(v, c)) == Some(c),
{
    match v {
        FieldView::Bytes(b) => {
            if b.len() >= 4 {
                lemma_le32_splice(b, 0, c);
            } else {
                lemma_le32_of_bytes(c);
            }
        },
        _ => {},
    }
}

/// After incompatible conditions are dropped, every condition count (`CITC`)
/// reads as the number of condition entries left, for counts that are not
/// stored as structs.
pub proof fn law_condition_count_synced(interner: StringInterner, r: RecordView)
    requires
        forall|i: int| 0 <= i < r.fields.len() && #[trigger] r.fields[i].sig == code('C', 'I', 'T', 'C') ==> !(r.fields[i].value is Struct),
    ensures
        forall|j: int|
            0 <= j < without_incompatible_conditions(interner, r).fields.len()
                && #[trigger] without_incompatible_conditions(interner, r).fields[j].sig == code('C', 'I', 'T', 'C')
                ==> value_to_u32(without_incompatible_conditions(interner, r).fields[j].value) == Some(
                condition_count(without_incompatible_conditions(interner, r).fields) as u32,
            ),
{
    let n = r.fields.map_values(|e: EntryView| remapped_condition_entry(e));
    let k = kept(n, condition_mask(interner, r.sig, n));
    let res = without_incompatible_conditions(interner, r);
    lemma_kept_members(n, condition_mask(interner, r.sig, n));
    if crate::fields::has_sig(k, code('C', 'I', 'T', 'C')) {
        let c = condition_count(k) as u32;
        lemma_count_after_citc(k, c);
        assert(res.fields == k.map_values(|e: EntryView| citc_with_count(e, c)));
        assert forall|j: int| 0 <= j < res.fields.len() && #[trigger] res.fields[j].sig == code('C', 'I', 'T', 'C') implies value_to_u32(
            res.fields[j].value,
        ) == Some(condition_count(res.fields) as u32) by {
            assert(res.fields[j] == citc_with_count(k[j], c));
            let i = choose|i: int| 0 <= i < n.len() && k[j] == #[trigger] n[i];
            assert(n[i] == remapped_condition_entry(r.fields[i]));
            assert(r.fields[i].sig == code('C', 'I', 'T', 'C'));
            lemma_with_count_reads(k[j].value, c);
        }
    } else {
        assert forall|j: int| 0 <= j < res.fields.len() implies #[trigger] res.fields[j].sig != code('C', 'I', 'T', 'C') by {
            if res.fields[j].sig == code('C', 'I', 'T', 'C') {
                crate::fields::lemma_first_with_sig(k, code('C', 'I', 'T', 'C'), j);
            }
        }
    }
}

} // verus!

verus! {

/// How many entries carry code `sig`.
pub open spec fn sig_count(f: Seq<EntryView>, sig: [u8; 4]) -> nat
    decreases f.len(),
{
    if f.len() == 0 {
        0
    } else {
        sig_count(f.drop_last(), sig) + if f.last().sig == sig { 1nat } else { 0nat }
    }
}

proof fn lemma_leveled_out_count(interner: StringInterner, r: RecordView, n: int)
    requires
        0 <= n <= r.fields.len(),
    ensures
        sig_count(leveled_out(interner, r, n), code('L', 'V', 'L', 'O')) == leveled_count(interner, r, n),
    decreases n,
{
    if n > 0 {
        lemma_leveled_out_count(interner, r, n - 1);
        let prev = leveled_out(interner, r, n - 1);
        let out = leveled_out(interner, r, n);
        if r.fields[n - 1].sig == code('L', 'V', 'L', 'O') {
            if let Some(c) = lvlo_converted(interner, r, n - 1) {
                assert(out.drop_last() =~= prev);
            }
        } else {
            assert(out.drop_last() =~= prev);
        }
    }
}

proof fn lemma_sig_count_update(f: Seq<EntryView>, k: int, e: EntryView, sig: [u8; 4])
    requires
        0 <= k < f.len(),
        f[k].sig != sig,
        e.sig != sig,
    ensures
        sig_count(f.update(k, e), sig) == sig_count(f, sig),
    decreases f.len(),
{
    let g = f.update(k, e);
    if k == f.len() - 1 {
        assert(g.drop_last() =~= f.drop_last());
    } else {
        lemma_sig_count_update(f.drop_last(), k, e, sig);
        assert(g.drop_last() =~= f.drop_last().update(k, e));
    }
}

proof fn lemma_sig_count_prepend(f: Seq<EntryView>, e: EntryView, sig: [u8; 4])
    requires
        e.sig != sig,
    ensures
        sig_count(seq![e] + f, sig) == sig_count(f, sig),
    decreases f.len(),
{
    if f.len() > 0 {
        lemma_sig_count_prepend(f.drop_last(), e, sig);
        assert((seq![e] + f).drop_last() =~= seq![e] + f.drop_last());
        assert((seq![e] + f).last() == f.last());
    } else {
        assert(seq![e] + f =~= seq![e]);
        assert(seq![e].drop_last() =~= Seq::<EntryView>::empty());
        assert(sig_count(Seq::<EntryView>::empty(), sig) == 0);
        assert(seq![e].last() == e);
    }
}

proof fn lemma_leveled_out_shape(interner: StringInterner, r: RecordView, n: int)
    requires
        0 <= n <= r.fields.len(),
    ensures
        forall|m: int| 0 <= m < leveled_out(interner, r, n).len() ==> {
            let x = #[trigger] leveled_out(interner, r, n)[m];
            &&& x.sig == code('L', 'V', 'L', 'O') ==> exists|lv: u16, rf: FormKey, ct: u16| x.value == fo4_lvlo(
                interner@,
                r.sig,
                lv,
                rf,
                ct,
            )
            &&& x.sig != code('L', 'V', 'L', 'O') ==> exists|i: int| 0 <= i < n && x == r.fields[i]
        },
    decreases n,
{
    if n > 0 {
        lemma_leveled_out_shape(interner, r, n - 1);
        let prev = leveled_out(interner, r, n - 1);
        let out = leveled_out(interner, r, n);
        assert forall|m: int| 0 <= m < out.len() implies {
            let x = #[trigger] out[m];
            &&& x.sig == code('L', 'V', 'L', 'O') ==> exists|lv: u16, rf: FormKey, ct: u16| x.value == fo4_lvlo(
                interner@,
                r.sig,
                lv,
                rf,
                ct,
            )
            &&& x.sig != code('L', 'V', 'L', 'O') ==> exists|i: int| 0 <= i < n && x == r.fields[i]
        } by {
            if m < prev.len() {
                assert(out[m] == prev[m]);
                let x = prev[m];
                if x.sig != code('L', 'V', 'L', 'O') {
                    let i = choose|i: int| 0 <= i < n - 1 && x == r.fields[i];
                    assert(0 <= i < n && x == r.fields[i]);
                }
            } else if r.fields[n - 1].sig != code('L', 'V', 'L', 'O') {
                assert(out[m] == r.fields[n - 1]);
            } else {
                let e = r.fields[n - 1];
                let f = r.fields;
                let rf = lvlo_reference(interner, r.form_key.plugin, e.value)->0;
                let level = match lvlo_u16(e.value, 0) {
                    Some(v) => v,
                    None => following_u16(f, n, code('L', 'V', 'L', 'V'), 1),
                };
                let count = match lvlo_u16(e.value, 8) {
                    Some(v) => v,
                    None => following_u16(f, n, code('L', 'V', 'I', 'V'), 1),
                };
                assert(out[m].value == fo4_lvlo(
                    interner@,
                    r.sig,
                    level,
                    remapped_lvlo_reference(interner, interner@, rf),
                    count,
                ));
            }
        }
    }
}

/// In a converted leveled list every entry (`LVLO`) has FO4's layout: the
/// level, two zero bytes, the reference under the member the list's type
/// names (`npc`, `spell` or `item`), the count, a zero chance-none and a zero
/// byte; and a list that had no count (`LLCT`) but had entries gets one in
/// front.
pub proof fn law_leveled_entries_fo4_shaped(interner: StringInterner, r: RecordView)
    requires
        leveled_sig(r.sig),
    ensures
        forall|j: int| 0 <= j < leveled_converted(interner, r).fields.len() && (
        #[trigger] leveled_converted(interner, r).fields[j]).sig == code('L', 'V', 'L', 'O') ==> exists|
            lv: u16,
            rf: FormKey,
            ct: u16,
        | leveled_converted(interner, r).fields[j].value == fo4_lvlo(interner@, r.sig, lv, rf, ct),
        has_sig(r.fields, code('L', 'V', 'L', 'O')) && !has_sig(r.fields, code('L', 'L', 'C', 'T'))
            ==> leveled_converted(interner, r).fields[0].sig == code('L', 'L', 'C', 'T'),
{
    let len = r.fields.len() as int;
    let out = leveled_out(interner, r, len);
    let count = leveled_count(interner, r, len);
    let llct = code('L', 'L', 'C', 'T');
    let lvlo = code('L', 'V', 'L', 'O');
    lemma_leveled_out_shape(interner, r, len);
    let f = leveled_converted(interner, r).fields;
    if has_sig(r.fields, lvlo) {
        let c = if count > 255 { 255u64 } else { count as u64 };
        let e = EntryView { sig: llct, value: FieldView::Uint(c) };
        assert(f == synced_llct(out, count));
        lemma_first_where_bounds(out, |x: EntryView| x.sig == llct);
        match first_with_sig(out, llct) {
            Some(k) => {
                assert(f == out.update(k, e));
                assert forall|j: int| 0 <= j < f.len() && (#[trigger] f[j]).sig == lvlo implies exists|
                    lv: u16,
                    rf: FormKey,
                    ct: u16,
                | f[j].value == fo4_lvlo(interner@, r.sig, lv, rf, ct) by {
                    assert(j != k);
                    assert(f[j] == out[j]);
                }
                if !has_sig(r.fields, llct) {
                    assert(out[k].sig == llct);
                    let i = choose|i: int| 0 <= i < len && out[k] == r.fields[i];
                    assert(r.fields[i].sig == llct);
                }
            },
            None => {
                assert(f == seq![e] + out);
                assert forall|j: int| 0 <= j < f.len() && (#[trigger] f[j]).sig == lvlo implies exists|
                    lv: u16,
                    rf: FormKey,
                    ct: u16,
                | f[j].value == fo4_lvlo(interner@, r.sig, lv, rf, ct) by {
                    assert(j != 0);
                    assert(f[j] == out[j - 1]);
                }
            },
        }
    } else {
        assert(f == out);
    }
}

/// A converted leveled list's count (`LLCT`) is the number of its entries
/// (`LVLO`) that survived conversion, capped at 255.
pub proof fn law_leveled_count_synced(interner: StringInterner, r: RecordView)
    requires
        leveled_sig(r.sig),
        has_sig(r.fields, code('L', 'V', 'L', 'O')),
    ensures
        ({
            let f = leveled_converted(interner, r).fields;
            let n = sig_count(f, code('L', 'V', 'L', 'O'));
            first_with_sig(f, code('L', 'L', 'C', 'T')) matches Some(k) && f[k].value == FieldView::Uint(
                if n > 255 { 255u64 } else { n as u64 },
            )
        }),
{
    let len = r.fields.len() as int;
    let out = leveled_out(interner, r, len);
    let count = leveled_count(interner, r, len);
    lemma_leveled_out_count(interner, r, len);
    let llct = code('L', 'L', 'C', 'T');
    let lvlo = code('L', 'V', 'L', 'O');
    let c = if count > 255 { 255u64 } else { count as u64 };
    let e = EntryView { sig: llct, value: FieldView::Uint(c) };
    let f = leveled_converted(interner, r).fields;
    assert(f == synced_llct(out, count));
    lemma_first_where_bounds(out, |x: EntryView| x.sig == llct);
    match first_with_sig(out, llct) {
        Some(k) => {
            assert(f == out.update(k, e));
            lemma_sig_count_update(out, k, e, lvlo);
            assert forall|j: int| 0 <= j < k implies f[j].sig != llct by {
                assert(f[j] == out[j]);
            }
            lemma_first_with_sig(f, llct, k);
        },
        None => {
            assert(f == seq![e] + out);
            lemma_sig_count_prepend(out, e, lvlo);
            lemma_first_with_sig(f, llct, 0);
        },
    }
}

} // verus!

verus! {

proof fn lemma_fo4_master_handle(interner: StringInterner)
    requires
        interner.wf(),
        interner@.contains("Fallout4.esm".spec_bytes()),
    ensures
        names_fo4_master(interner, handle_of(interner@, "Fallout4.esm".spec_bytes())),
{
    let held = interner@;
    let s = "Fallout4.esm".spec_bytes();
    let w = choose|i: int| 0 <= i < held.len() && held[i] == s;
    assert(interner.spec_resolve(handle_of(held, s)) == Some(s));
}

proof fn lemma_keyword_in_pushed(interner: StringInterner, s: Seq<FieldView>, x: FieldView, keyword: u32)
    requires
        has_fo4_keyword(interner, x, keyword),
    ensures
        keyword_in_items(interner, s.push(x), keyword),
    decreases s.len(),
{
    let t = s.push(x);
    if s.len() > 0 {
        lemma_keyword_in_pushed(interner, s.subrange(1, s.len() as int), x, keyword);
        assert(t.subrange(1, t.len() as int) =~= s.subrange(1, s.len() as int).push(x));
    } else {
        assert(t[0] == x);
    }
}

proof fn lemma_player_path_entry_added(interner: StringInterner, e: EntryView, keyword: FieldView, added: EntryView)
    requires
        interner.wf(),
        interner@.contains("Fallout4.esm".spec_bytes()),
        keyword == FieldView::FormKey(FormKey { local: 0x06D5BB, plugin: handle_of(interner@, "Fallout4.esm".spec_bytes()) }),
        e.sig == code('K', 'W', 'D', 'A'),
        e.value is Bytes ==> e.value->Bytes_0.len() % 4 == 0,
        added == (match e.value {
            FieldView::List(items) => EntryView { value: FieldView::List(items.push(keyword)), ..e },
            FieldView::Bytes(b) => EntryView { value: FieldView::Bytes(b + u32_bytes(0x06D5BB)), ..e },
            FieldView::FormKey(fk) => EntryView { value: FieldView::List(seq![FieldView::FormKey(fk), keyword]), ..e },
            _ => e,
        }),
        e.value is List || e.value is Bytes || e.value is FormKey,
    ensures
        player_path_entry(interner, added),
{
    lemma_fo4_master_handle(interner);
    assert(has_fo4_keyword(interner, keyword, 0x06D5BB));
    match e.value {
        FieldView::List(items) => {
            lemma_keyword_in_pushed(interner, items, keyword, 0x06D5BB);
        },
        FieldView::Bytes(b) => {
            let c = b + u32_bytes(0x06D5BB);
            lemma_le32_of_bytes(0x06D5BB);
            assert(c.subrange(b.len() as int, b.len() + 4int) =~= u32_bytes(0x06D5BB));
            assert(le32(c, b.len() as int) == le32(u32_bytes(0x06D5BB), 0));
            assert(0x06D5BBu32 & 0x00FF_FFFF == 0x06D5BB) by (bit_vector);
            assert(raw_keyword_row(c, b.len() as int, 0x06D5BB));
        },
        FieldView::FormKey(fk) => {
            lemma_keyword_in_pushed(interner, seq![FieldView::FormKey(fk)], keyword, 0x06D5BB);
            assert(seq![FieldView::FormKey(fk)].push(keyword) =~= seq![FieldView::FormKey(fk), keyword]);
        },
        _ => {},
    }
}

proof fn lemma_synced_keeps(f: Seq<EntryView>, i: int, count: u32)
    requires
        0 <= i < f.len(),
        f[i].sig == code('K', 'W', 'D', 'A'),
    ensures
        exists|j: int| 0 <= j < synced_keywords(f, count).len() && #[trigger] synced_keywords(f, count)[j] == f[i],
{
    let g = synced_keywords(f, count);
    lemma_first_where_bounds(f, |x: EntryView| x.sig == code('K', 'S', 'I', 'Z'));
    lemma_first_where_bounds(f, |x: EntryView| x.sig == code('K', 'W', 'D', 'A'));
    match first_with_sig(f, code('K', 'S', 'I', 'Z')) {
        Some(k) => {
            assert(g[i] == f[i]);
        },
        None => {
            let at = match first_with_sig(f, code('K', 'W', 'D', 'A')) {
                Some(k) => k,
                None => f.len() as int,
            };
            if i < at {
                assert(g[i] == f[i]);
            } else {
                assert(g[i + 1] == f[i]);
            }
        },
    }
}

/// Giving a terminal the FO4 player-path keyword twice gives it once: a
/// second pass finds the keyword and changes nothing. This holds when the
/// FO4 master is held and a raw keyword array, if that is what the first
/// `KWDA` holds, is made of whole four-byte rows.
pub proof fn law_terminal_keyword_once(interner: StringInterner, r: RecordView)
    requires
        interner.wf(),
        interner@.contains("Fallout4.esm".spec_bytes()),
        first_with_sig(r.fields, code('K', 'W', 'D', 'A')) matches Some(k) ==> (r.fields[k].value is Bytes
            ==> r.fields[k].value->Bytes_0.len() % 4 == 0),
    ensures
        player_path_added(interner, player_path_added(interner, r)) == player_path_added(interner, r),
{
    let keyword = FieldView::FormKey(FormKey { local: 0x06D5BB, plugin: handle_of(interner@, "Fallout4.esm".spec_bytes()) });
    if needs_player_path(interner, r) {
        if let Some(f) = with_player_path(r.fields, keyword) {
            let res = player_path_added(interner, r);
            let g = synced_keywords(f, keyword_total(f) as u32);
            assert(res.fields == g);
            lemma_first_where_bounds(r.fields, |x: EntryView| x.sig == code('K', 'W', 'D', 'A'));
            let i = match first_with_sig(r.fields, code('K', 'W', 'D', 'A')) {
                Some(k) => {
                    let e = r.fields[k];
                    let added = match e.value {
                        FieldView::List(items) => EntryView { value: FieldView::List(items.push(keyword)), ..e },
                        FieldView::Bytes(b) => EntryView { value: FieldView::Bytes(b + u32_bytes(0x06D5BB)), ..e },
                        FieldView::FormKey(fk) => EntryView { value: FieldView::List(seq![FieldView::FormKey(fk), keyword]), ..e },
                        _ => e,
                    };
                    lemma_player_path_entry_added(interner, e, keyword, added);
                    assert(f[k] == added);
                    k
                },
                None => {
                    let added = EntryView { sig: code('K', 'W', 'D', 'A'), value: FieldView::List(seq![keyword]) };
                    lemma_fo4_master_handle(interner);
                    lemma_keyword_in_pushed(interner, Seq::<FieldView>::empty(), keyword, 0x06D5BB);
                    assert(Seq::<FieldView>::empty().push(keyword) =~= seq![keyword]);
                    assert(f[r.fields.len() as int] == added);
                    r.fields.len() as int
                },
            };
            assert(player_path_entry(interner, f[i]));
            lemma_synced_keeps(f, i, keyword_total(f) as u32);
            let j = choose|j: int| 0 <= j < g.len() && #[trigger] g[j] == f[i];
            assert(player_path_entry(interner, res.fields[j]));
            assert(!needs_player_path(interner, res));
        }
    }
}

} // verus!


verus! {

proof fn lemma_choices_at_most_four(row: Seq<EntryView>, plugin: Sym)
    ensures
        row_split(row, plugin).choices.len() <= 4,
    decreases row.len(),
{
    if row.len() > 0 {
        lemma_choices_at_most_four(row.drop_last(), plugin);
    }
}

/// A scene action with dialogue choices carries at most four of them, in
/// the player response slots and again, in the same order, in the NPC
/// response slots.
pub proof fn law_scene_choices_mirrored(row: Seq<EntryView>, plugin: Sym)
    ensures
        row_split(row, plugin).choices.len() <= 4,
        ({
            let p = row_split(row, plugin);
            let m = p.choices.len() as int;
            let at = match first_with_sig(p.stripped, code('D', 'T', 'G', 'T')) {
                Some(k) => k,
                None => p.stripped.len() as int,
            };
            let out = scen_row_out(row, plugin);
            m > 0 ==> forall|k: int| 0 <= k < m ==> {
                &&& #[trigger] out[at + k].sig == player_slot(k)
                &&& out[at + m + k].sig == npc_slot(k)
                &&& out[at + k].value == p.choices[k]
                &&& out[at + m + k].value == p.choices[k]
            }
        }),
{
    lemma_choices_at_most_four(row, plugin);
    let p = row_split(row, plugin);
    let m = p.choices.len() as int;
    lemma_first_where_bounds(p.stripped, |x: EntryView| x.sig == code('D', 'T', 'G', 'T'));
    let at = match first_with_sig(p.stripped, code('D', 'T', 'G', 'T')) {
        Some(k) => k,
        None => p.stripped.len() as int,
    };
    let out = scen_row_out(row, plugin);
    if m > 0 {
        let a = p.stripped.take(at);
        let pl = slotted(p.choices, true);
        let np = slotted(p.choices, false);
        assert(out == a + pl + np + p.stripped.skip(at));
        assert forall|k: int| 0 <= k < m implies {
            &&& #[trigger] out[at + k].sig == player_slot(k)
            &&& out[at + m + k].sig == npc_slot(k)
            &&& out[at + k].value == p.choices[k]
            &&& out[at + m + k].value == p.choices[k]
        } by {
            assert(out[at + k] == pl[k]);
            assert(out[at + m + k] == np[k]);
        }
    }
}

/// A light ends up with a fade value, and a second pass changes nothing.
pub proof fn law_light_fade_ensured(r: RecordView)
    requires
        r.sig == code('L', 'I', 'G', 'H'),
    ensures
        has_sig(fade_ensured(r).fields, code('F', 'N', 'A', 'M')),
        fade_ensured(fade_ensured(r)) == fade_ensured(r),
{
    let f = fade_ensured(r).fields;
    if !has_sig(r.fields, code('F', 'N', 'A', 'M')) {
        lemma_first_where_bounds(r.fields, |x: EntryView| x.sig == code('D', 'A', 'T', 'A'));
        match first_with_sig(r.fields, code('D', 'A', 'T', 'A')) {
            Some(d) => {
                assert(f[d + 1].sig == code('F', 'N', 'A', 'M'));
            },
            None => {
                assert(f[r.fields.len() as int].sig == code('F', 'N', 'A', 'M'));
            },
        }
    }
}

} // verus!

verus! {

proof fn lemma_kept_loadable(interner: StringInterner, rsig: [u8; 4], s: Seq<EntryView>, keep: Seq<bool>)
    requires
        keep.len() >= s.len(),
        forall|i: int| 0 <= i < s.len() && keep[i] && is_condition_sig((#[trigger] s[i]).sig) ==> !drops_condition(
            interner,
            rsig,
            s[i].value,
        ),
    ensures
        forall|j: int| 0 <= j < kept(s, keep).len() && is_condition_sig((#[trigger] kept(s, keep)[j]).sig) ==> !drops_condition(
            interner,
            rsig,
            kept(s, keep)[j].value,
        ),
    decreases s.len(),
{
    if s.len() > 0 {
        let t = s.drop_last();
        assert forall|i: int| 0 <= i < t.len() && keep[i] && is_condition_sig((#[trigger] t[i]).sig) implies !drops_condition(
            interner,
            rsig,
            t[i].value,
        ) by {
            assert(t[i] == s[i]);
        }
        lemma_kept_loadable(interner, rsig, t, keep);
        let k = kept(s, keep);
        let u = kept(t, keep);
        assert(k == if keep[s.len() - 1] { u.push(s.last()) } else { u });
        assert forall|j: int| 0 <= j < k.len() && is_condition_sig((#[trigger] k[j]).sig) implies !drops_condition(
            interner,
            rsig,
            k[j].value,
        ) by {
            if keep[s.len() - 1] && j == k.len() - 1 {
                assert(k[j] == s[s.len() - 1]);
            } else {
                assert(k[j] == u[j]);
            }
        }
    } else {
        assert(kept(s, keep).len() == 0);
    }
}

proof fn lemma_kept_outside(s: Seq<EntryView>, keep: Seq<bool>)
    requires
        keep.len() >= s.len(),
        forall|i: int| 0 <= i < s.len() && outside_conditions(#[trigger] s[i]) ==> keep[i],
    ensures
        outside_entries(kept(s, keep)) == outside_entries(s),
    decreases s.len(),
{
    reveal(Seq::filter);
    if s.len() > 0 {
        let t = s.drop_last();
        assert forall|i: int| 0 <= i < t.len() && outside_conditions(#[trigger] t[i]) implies keep[i] by {
            assert(t[i] == s[i]);
        }
        lemma_kept_outside(t, keep);
        let k = kept(s, keep);
        let u = kept(t, keep);
        if keep[s.len() - 1] {
            assert(k == u.push(s.last()));
            assert(k.drop_last() =~= u);
        } else {
            assert(k == u);
            assert(!outside_conditions(s.last()));
        }
    }
}

proof fn lemma_outside_map(s: Seq<EntryView>, g: spec_fn(EntryView) -> EntryView)
    requires
        forall|e: EntryView| outside_conditions(#[trigger] g(e)) == outside_conditions(e),
        forall|e: EntryView| outside_conditions(e) ==> #[trigger] g(e) == e,
    ensures
        outside_entries(s.map_values(g)) == outside_entries(s),
    decreases s.len(),
{
    reveal(Seq::filter);
    let m = s.map_values(g);
    if s.len() > 0 {
        lemma_outside_map(s.drop_last(), g);
        assert(m.drop_last() =~= s.drop_last().map_values(g));
        assert(m.last() == g(s.last()));
    }
}

/// After incompatible conditions are dropped, no condition left names a
/// function FO4 cannot evaluate, and every entry outside the condition
/// blocks (and other than the condition count) is kept, with its value and
/// in its order.
pub proof fn law_kept_conditions_compatible(interner: StringInterner, r: RecordView)
    ensures
        forall|j: int| 0 <= j < without_incompatible_conditions(interner, r).fields.len() && is_condition_sig(
            (#[trigger] without_incompatible_conditions(interner, r).fields[j]).sig,
        ) ==> (condition_function(interner, without_incompatible_conditions(interner, r).fields[j].value) matches Some(
            f,
        ) ==> !incompatible_function(f)),
        outside_entries(without_incompatible_conditions(interner, r).fields) == outside_entries(r.fields),
{
    let g = |e: EntryView| remapped_condition_entry(e);
    let n = r.fields.map_values(g);
    let mask = condition_mask(interner, r.sig, n);
    let k = kept(n, mask);
    let res = without_incompatible_conditions(interner, r);
    assert forall|i: int| 0 <= i < n.len() && mask[i] && is_condition_sig((#[trigger] n[i]).sig) implies !drops_condition(
        interner,
        r.sig,
        n[i].value,
    ) by {}
    lemma_kept_loadable(interner, r.sig, n, mask);
    assert forall|e: EntryView| outside_conditions(#[trigger] g(e)) == outside_conditions(e) by {}
    assert forall|e: EntryView| outside_conditions(e) implies #[trigger] g(e) == e by {}
    lemma_outside_map(r.fields, g);
    assert forall|i: int| 0 <= i < n.len() && outside_conditions(#[trigger] n[i]) implies mask[i] by {}
    lemma_kept_outside(n, mask);
    if crate::fields::has_sig(k, code('C', 'I', 'T', 'C')) {
        let c = condition_count(k) as u32;
        let h = |e: EntryView| citc_with_count(e, c);
        assert(res.fields == k.map_values(h));
        assert forall|e: EntryView| outside_conditions(#[trigger] h(e)) == outside_conditions(e) by {}
        assert forall|e: EntryView| outside_conditions(e) implies #[trigger] h(e) == e by {}
        lemma_outside_map(k, h);
        assert forall|j: int| 0 <= j < res.fields.len() && is_condition_sig((#[trigger] res.fields[j]).sig) implies (
        condition_function(interner, res.fields[j].value) matches Some(f) ==> !incompatible_function(f)) by {
            assert(res.fields[j] == citc_with_count(k[j], c));
            assert(k[j].sig != code('C', 'I', 'T', 'C'));
            assert(!drops_condition(interner, r.sig, k[j].value));
        }
    } else {
        assert forall|j: int| 0 <= j < res.fields.len() && is_condition_sig((#[trigger] res.fields[j]).sig) implies (
        condition_function(interner, res.fields[j].value) matches Some(f) ==> !incompatible_function(f)) by {
            assert(!drops_condition(interner, r.sig, k[j].value));
        }
    }
}

} // verus!

verus! {

/// Whether entry `i` of `s` is a parameter string of a dropped condition:
/// the nearest entry before it that is no parameter string is a condition
/// FO4 cannot load.
pub open spec fn string_of_dropped(interner: StringInterner, rsig: [u8; 4], s: Seq<EntryView>, i: int) -> bool {
    exists|j: int|
        0 <= j < i && is_condition_sig(#[trigger] s[j].sig) && drops_condition(interner, rsig, s[j].value)
            && forall|k: int| j < k < i ==> is_condition_string_sig(#[trigger] s[k].sig)
}

proof fn lemma_dropping_after(interner: StringInterner, rsig: [u8; 4], s: Seq<EntryView>, i: int)
    requires
        0 <= i <= s.len(),
    ensures
        dropping_after(interner, rsig, s.take(i)) == string_of_dropped(interner, rsig, s, i),
    decreases i,
{
    let t = s.take(i);
    if i > 0 {
        let e = s[i - 1];
        assert(t.last() == e);
        assert(t.drop_last() =~= s.take(i - 1));
        if is_condition_sig(e.sig) {
            if string_of_dropped(interner, rsig, s, i) {
                let j = choose|j: int|
                    0 <= j < i && is_condition_sig(#[trigger] s[j].sig) && drops_condition(interner, rsig, s[j].value)
                        && forall|k: int| j < k < i ==> is_condition_string_sig(#[trigger] s[k].sig);
                if j < i - 1 {
                    assert(is_condition_string_sig(s[i - 1].sig));
                }
            }
            if drops_condition(interner, rsig, e.value) {
                assert(is_condition_sig(s[i - 1].sig));
            }
        } else if is_condition_string_sig(e.sig) {
            lemma_dropping_after(interner, rsig, s, i - 1);
            if string_of_dropped(interner, rsig, s, i) {
                let j = choose|j: int|
                    0 <= j < i && is_condition_sig(#[trigger] s[j].sig) && drops_condition(interner, rsig, s[j].value)
                        && forall|k: int| j < k < i ==> is_condition_string_sig(#[trigger] s[k].sig);
                assert(j != i - 1);
                assert forall|k: int| j < k < i - 1 implies is_condition_string_sig(#[trigger] s[k].sig) by {}
                assert(string_of_dropped(interner, rsig, s, i - 1));
            }
            if string_of_dropped(interner, rsig, s, i - 1) {
                let j = choose|j: int|
                    0 <= j < i - 1 && is_condition_sig(#[trigger] s[j].sig) && drops_condition(interner, rsig, s[j].value)
                        && forall|k: int| j < k < i - 1 ==> is_condition_string_sig(#[trigger] s[k].sig);
                assert forall|k: int| j < k < i implies is_condition_string_sig(#[trigger] s[k].sig) by {
                    if k == i - 1 {
                        assert(s[k] == e);
                    }
                }
            }
        } else {
            if string_of_dropped(interner, rsig, s, i) {
                let j = choose|j: int|
                    0 <= j < i && is_condition_sig(#[trigger] s[j].sig) && drops_condition(interner, rsig, s[j].value)
                        && forall|k: int| j < k < i ==> is_condition_string_sig(#[trigger] s[k].sig);
                if j < i - 1 {
                    assert(is_condition_string_sig(s[i - 1].sig));
                }
            }
        }
    }
}

/// Dropping incompatible conditions keeps a condition exactly when FO4 can
/// load it, and a parameter string (`CIS1`/`CIS2`) exactly when it does not
/// belong to a dropped condition; every other entry is kept.
pub proof fn law_strings_leave_with_their_condition(interner: StringInterner, rsig: [u8; 4], s: Seq<EntryView>, i: int)
    requires
        0 <= i < s.len(),
    ensures
        is_condition_sig(s[i].sig) ==> (condition_mask(interner, rsig, s)[i] <==> !drops_condition(interner, rsig, s[i].value)),
        is_condition_string_sig(s[i].sig) ==> (condition_mask(interner, rsig, s)[i] <==> !string_of_dropped(interner, rsig, s, i)),
        !is_condition_sig(s[i].sig) && !is_condition_string_sig(s[i].sig) ==> condition_mask(interner, rsig, s)[i],
{
    lemma_dropping_after(interner, rsig, s, i);
}

} // verus!

verus! {

/// The condition functions FO4 cannot evaluate are exactly the ids above
/// FO4's highest (817) and the FO76-only ids 2, 3, 105, 371, 579, 596, 692,
/// 730 and 737.
pub proof fn law_incompatible_function_ids(id: u16)
    ensures
        incompatible_function(id) <==> (id > 817 || id == 2 || id == 3 || id == 105 || id == 371 || id == 579
            || id == 596 || id == 692 || id == 730 || id == 737),
{
}

/// After incompatible conditions are dropped, no raw condition left names
/// function 2, 3, 105, 371, 579, 596, 692, 730, 737 or one above 817.
pub proof fn law_no_fo76_only_condition_left(interner: StringInterner, r: RecordView)
    ensures
        forall|j: int|
            0 <= j < without_incompatible_conditions(interner, r).fields.len() && is_condition_sig(
                (#[trigger] without_incompatible_conditions(interner, r).fields[j]).sig,
            ) ==> (without_incompatible_conditions(interner, r).fields[j].value is Bytes
                && without_incompatible_conditions(interner, r).fields[j].value->Bytes_0.len() >= 10 ==> {
                let id = crate::bytes::le16(without_incompatible_conditions(interner, r).fields[j].value->Bytes_0, 8);
                !(id > 817 || id == 2 || id == 3 || id == 105 || id == 371 || id == 579 || id == 596 || id == 692
                    || id == 730 || id == 737)
            }),
{
    law_kept_conditions_compatible(interner, r);
    let res = without_incompatible_conditions(interner, r);
    assert forall|j: int|
        0 <= j < res.fields.len() && is_condition_sig((#[trigger] res.fields[j]).sig) implies (
        res.fields[j].value is Bytes && res.fields[j].value->Bytes_0.len() >= 10 ==> {
            let id = crate::bytes::le16(res.fields[j].value->Bytes_0, 8);
            !(id > 817 || id == 2 || id == 3 || id == 105 || id == 371 || id == 579 || id == 596 || id == 692
                || id == 730 || id == 737)
        }) by {
        if let FieldView::Bytes(b) = res.fields[j].value {
            if b.len() >= 10 {
                let id = crate::bytes::le16(b, 8);
                assert(condition_function(interner, res.fields[j].value) == Some(id));
                law_incompatible_function_ids(id);
            }
        }
    }
}

} // verus!
