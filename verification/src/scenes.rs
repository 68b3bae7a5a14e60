//! Scene dialogue choices and magic-effect data: FO76 scene actions list
//! their player and NPC topics as `ESCS`/`ESCE`, FO4 as four fixed slots
//! each; FO76 magic-effect data carries a second flag word and archetypes
//! FO4 lacks.
use vstd::prelude::*;
use vstd::pervasive::VecAdditionalExecFns;
use crate::actors::{source_form_key_value, source_form_key_view};
use crate::bytes::{le32, read_u32_le, splice, u32_bytes, write_u32_le};
use crate::effects::Fo76Fo4Hook;
use crate::fields::{find_sig, first_with_sig, push_entry, append_entries, lemma_entries_view_add};
use crate::model::{code, entries_view, sig_is, tag, EntryView, FieldEntry, FieldValue, FieldView, Record,
    RecordView, SubrecordSig, Sym};
use crate::normalize::map_fields;

verus! {

/// The FO4 player response slots, in order.
pub open spec fn player_slot(k: int) -> [u8; 4] {
    if k == 0 {
        code('P', 'T', 'O', 'P')
    } else if k == 1 {
        code('N', 'T', 'O', 'P')
    } else if k == 2 {
        code('N', 'E', 'T', 'O')
    } else {
        code('Q', 'T', 'O', 'P')
    }
}

/// The FO4 NPC response slots, in order.
pub open spec fn npc_slot(k: int) -> [u8; 4] {
    if k == 0 {
        code('N', 'P', 'O', 'T')
    } else if k == 1 {
        code('N', 'N', 'G', 'T')
    } else if k == 2 {
        code('N', 'N', 'U', 'T')
    } else {
        code('N', 'Q', 'U', 'T')
    }
}

fn player_slot_exec(k: usize) -> (r: [u8; 4])
    ensures
        r == player_slot(k as int),
{
    if k == 0 {
        tag('P', 'T', 'O', 'P')
    } else if k == 1 {
        tag('N', 'T', 'O', 'P')
    } else if k == 2 {
        tag('N', 'E', 'T', 'O')
    } else {
        tag('Q', 'T', 'O', 'P')
    }
}

fn npc_slot_exec(k: usize) -> (r: [u8; 4])
    ensures
        r == npc_slot(k as int),
{
    if k == 0 {
        tag('N', 'P', 'O', 'T')
    } else if k == 1 {
        tag('N', 'N', 'G', 'T')
    } else if k == 2 {
        tag('N', 'N', 'U', 'T')
    } else {
        tag('N', 'Q', 'U', 'T')
    }
}

/// A scene action row split into its other entries and its player choices:
/// the first four `ESCS` topics that name a form, typed; `ESCE` entries go.
pub struct RowSplit {
    pub stripped: Seq<EntryView>,
    pub choices: Seq<FieldView>,
}

pub open spec fn row_split(row: Seq<EntryView>, plugin: Sym) -> RowSplit
    decreases row.len(),
{
    if row.len() == 0 {
        RowSplit { stripped: Seq::empty(), choices: Seq::empty() }
    } else {
        let p = row_split(row.drop_last(), plugin);
        let e = row.last();
        if e.sig == code('E', 'S', 'C', 'S') {
            if p.choices.len() < 4 {
                match source_form_key_view(e.value, plugin) {
                    Some(v) => RowSplit { choices: p.choices.push(v), ..p },
                    None => p,
                }
            } else {
                p
            }
        } else if e.sig == code('E', 'S', 'C', 'E') {
            p
        } else {
            RowSplit { stripped: p.stripped.push(e), ..p }
        }
    }
}

/// Topics placed in the fixed slots.
pub open spec fn slotted(topics: Seq<FieldView>, player: bool) -> Seq<EntryView> {
    let t = if topics.len() > 4 { topics.take(4) } else { topics };
    Seq::new(t.len(), |k: int| EntryView { sig: if player { player_slot(k) } else { npc_slot(k) }, value: t[k] })
}

/// An action row in the FO4 layout: without choices only its other
/// entries; otherwise the choices fill the player slots and then the NPC
/// slots, before the row's first `DTGT` (or at its end).
pub open spec fn scen_row_out(row: Seq<EntryView>, plugin: Sym) -> Seq<EntryView> {
    let p = row_split(row, plugin);
    if p.choices.len() == 0 {
        p.stripped
    } else {
        let at = match first_with_sig(p.stripped, code('D', 'T', 'G', 'T')) {
            Some(k) => k,
            None => p.stripped.len() as int,
        };
        p.stripped.take(at) + slotted(p.choices, true) + slotted(p.choices, false) + p.stripped.skip(at)
    }
}

/// The state of a scan over a scene: the entries out so far, the open
/// action row, and whether a row is open.
pub open spec fn scen_scan(f: Seq<EntryView>, plugin: Sym) -> (Seq<EntryView>, Seq<EntryView>, bool)
    decreases f.len(),
{
    if f.len() == 0 {
        (Seq::empty(), Seq::empty(), false)
    } else {
        let (out, row, open) = scen_scan(f.drop_last(), plugin);
        let e = f.last();
        if e.sig == code('A', 'N', 'A', 'M') {
            (if open { out + scen_row_out(row, plugin) } else { out }, seq![e], true)
        } else if open {
            (out, row.push(e), true)
        } else {
            (out.push(e), row, false)
        }
    }
}

/// A scene with every action row in the FO4 layout.
pub open spec fn scen_choices(f: Seq<EntryView>, plugin: Sym) -> Seq<EntryView> {
    let (out, row, open) = scen_scan(f, plugin);
    if open { out + scen_row_out(row, plugin) } else { out }
}

fn slot_entries(out: &mut Vec<FieldEntry>, topics: Vec<FieldValue>, player: bool)
    ensures
        entries_view(final(out)@) == entries_view(old(out)@) + slotted(
            Seq::new(topics@.len(), |k: int| topics@[k]@),
            player,
        ),
{
    let ghost tv = Seq::new(topics@.len(), |k: int| topics@[k]@);
    let ghost o0 = entries_view(out@);
    let mut topics = topics;
    let n = if topics.len() > 4 { 4 } else { topics.len() };
    let ghost t = if tv.len() > 4 { tv.take(4) } else { tv };
    let mut k: usize = 0;
    while k < n
        invariant
            n == t.len(),
            n <= 4,
            k <= n,
            topics@.len() == tv.len() - k,
            forall|j: int| 0 <= j < topics@.len() ==> topics@[j]@ == tv[k + j],
            forall|j: int| 0 <= j < t.len() ==> t[j] == tv[j],
            entries_view(out@) == o0 + slotted(tv, player).take(k as int),
            slotted(tv, player).len() == n,
        decreases n - k,
    {
        let v = topics.remove(0);
        let sig = if player { player_slot_exec(k) } else { npc_slot_exec(k) };
        let ghost before = entries_view(out@);
        push_entry(out, FieldEntry { sig: SubrecordSig(sig), value: v });
        assert(slotted(tv, player).take(k + 1) =~= slotted(tv, player).take(k as int).push(slotted(tv, player)[k as int]));
        k = k + 1;
    }
    assert(slotted(tv, player).take(n as int) =~= slotted(tv, player));
}

/// Append one scene action row in the FO4 layout.
pub fn push_scen_action_with_fo4_choices(source_plugin: Sym, row: Vec<FieldEntry>, retained: &mut Vec<FieldEntry>)
    ensures
        entries_view(final(retained)@) == entries_view(old(retained)@) + scen_row_out(entries_view(row@), source_plugin),
{
    let ghost rv = entries_view(row@);
    let mut row = row;
    let n = row.len();
    let mut stripped: Vec<FieldEntry> = Vec::new();
    let mut choices: Vec<FieldValue> = Vec::new();
    let mut i: usize = 0;
    assert(entries_view(stripped@) =~= Seq::<EntryView>::empty());
    while i < n
        invariant
            rv.len() == n,
            i <= n,
            row@.len() == n - i,
            forall|j: int| 0 <= j < row@.len() ==> row@[j]@ == rv[i + j],
            ({
                let p = row_split(rv.take(i as int), source_plugin);
                &&& entries_view(stripped@) == p.stripped
                &&& Seq::new(choices@.len(), |k: int| choices@[k]@) == p.choices
            }),
        decreases n - i,
    {
        let e = row.remove(0);
        proof {
            assert(rv.take(i + 1).drop_last() =~= rv.take(i as int));
            assert(rv.take(i + 1).last() == rv[i as int]);
        }
        let s = e.sig.0;
        if sig_is(s, 'E', 'S', 'C', 'S') {
            if choices.len() < 4 {
                if let Some(v) = source_form_key_value(&e.value, source_plugin) {
                    let ghost before = Seq::new(choices@.len(), |k: int| choices@[k]@);
                    let ghost vv = v@;
                    choices.push(v);
                    assert(Seq::new(choices@.len(), |k: int| choices@[k]@) =~= before.push(vv));
                }
            }
        } else if sig_is(s, 'E', 'S', 'C', 'E') {
        } else {
            push_entry(&mut stripped, e);
        }
        i = i + 1;
    }
    assert(rv.take(n as int) =~= rv);
    if choices.len() == 0 {
        append_entries(retained, &mut stripped);
        return;
    }
    let at = match find_sig(&stripped, tag('D', 'T', 'G', 'T')) {
        Some(k) => k,
        None => stripped.len(),
    };
    let ghost sv = entries_view(stripped@);
    let mut tail = stripped.split_off(at);
    assert(entries_view(stripped@) =~= sv.take(at as int));
    assert(entries_view(tail@) =~= sv.skip(at as int));
    append_entries(retained, &mut stripped);
    let mut npc_choices: Vec<FieldValue> = Vec::new();
    let mut k: usize = 0;
    while k < choices.len()
        invariant
            k <= choices@.len(),
            npc_choices@.len() == k,
            forall|j: int| 0 <= j < k ==> #[trigger] npc_choices@[j]@ == choices@[j]@,
        decreases choices@.len() - k,
    {
        npc_choices.push(choices[k].duplicate());
        k = k + 1;
    }
    assert(Seq::new(npc_choices@.len(), |k: int| npc_choices@[k]@) =~= Seq::new(choices@.len(), |k: int| choices@[k]@));
    slot_entries(retained, choices, true);
    slot_entries(retained, npc_choices, false);
    append_entries(retained, &mut tail);
    let ghost p = row_split(rv, source_plugin);
    assert(entries_view(retained@) =~= entries_view(old(retained)@) + scen_row_out(rv, source_plugin));
}

impl Fo76Fo4Hook {
    /// Lay a scene's dialogue choices out in FO4's fixed slots.
    pub fn normalize_scen_player_dialogue_choices(record: &mut Record)
        ensures
            old(record)@.sig == code('S', 'C', 'E', 'N') ==> final(record)@ == (RecordView {
                fields: scen_choices(old(record)@.fields, old(record)@.form_key.plugin),
                ..old(record)@
            }),
            old(record)@.sig == code('S', 'C', 'E', 'N') ==> final(record)@.fields == scen_rows_laid_out(
                old(record)@.fields,
                old(record)@.form_key.plugin,
            ),
            old(record)@.sig != code('S', 'C', 'E', 'N') ==> final(record)@ == old(record)@,
    {
        if !sig_is(record.sig.0, 'S', 'C', 'E', 'N') {
            return;
        }
        let plugin = record.form_key.plugin;
        let ghost orig = record@.fields;
        let mut rest: Vec<FieldEntry> = Vec::new();
        core::mem::swap(&mut record.fields, &mut rest);
        let n = rest.len();
        let mut retained: Vec<FieldEntry> = Vec::new();
        let mut row: Vec<FieldEntry> = Vec::new();
        let mut open = false;
        let mut idx: usize = 0;
        assert(entries_view(retained@) =~= Seq::<EntryView>::empty());
        assert(entries_view(row@) =~= Seq::<EntryView>::empty());
        while idx < n
            invariant
                orig.len() == n,
                idx <= n,
                rest@.len() == n - idx,
                forall|j: int| 0 <= j < rest@.len() ==> rest@[j]@ == orig[idx + j],
                ({
                    let st = scen_scan(orig.take(idx as int), plugin);
                    &&& entries_view(retained@) == st.0
                    &&& entries_view(row@) == st.1
                    &&& open == st.2
                }),
            decreases n - idx,
        {
            let e = rest.remove(0);
            proof {
                assert(orig.take(idx + 1).drop_last() =~= orig.take(idx as int));
                assert(orig.take(idx + 1).last() == orig[idx as int]);
            }
            if sig_is(e.sig.0, 'A', 'N', 'A', 'M') {
                if open {
                    let mut done: Vec<FieldEntry> = Vec::new();
                    core::mem::swap(&mut row, &mut done);
                    push_scen_action_with_fo4_choices(plugin, done, &mut retained);
                }
                let ghost ev = e@;
                row = Vec::new();
                row.push(e);
                assert(entries_view(row@) =~= seq![ev]);
                open = true;
            } else if open {
                push_entry(&mut row, e);
            } else {
                push_entry(&mut retained, e);
            }
            idx = idx + 1;
        }
        assert(orig.take(n as int) =~= orig);
        if open {
            push_scen_action_with_fo4_choices(plugin, row, &mut retained);
        }
        record.fields = retained;
        proof {
            law_scene_rows_laid_out(orig, plugin);
        }
    }
}

/// The FO4 archetype for a FO76 one: stun becomes stagger, turbo-fert and
/// corpse highlight (and anything past FO4's last) become script.
pub open spec fn mgef_archetype(a: u32) -> Option<u32> {
    if a == 52 {
        Some(33)
    } else if a == 50 || a == 51 || a > 49 {
        Some(1)
    } else {
        None
    }
}

/// Magic-effect data with its archetype (offset 64) mapped to FO4's.
pub open spec fn archetype_normalized(b: Seq<u8>) -> Seq<u8> {
    if b.len() >= 68 {
        match mgef_archetype(le32(b, 64)) {
            Some(a) => splice(b, 64, u32_bytes(a)),
            None => b,
        }
    } else {
        b
    }
}

/// FO76 magic-effect data in FO4's layout: a 160-byte block loses its
/// second flag word (bytes 4..8) and is cut to 152 bytes; a 156-byte block
/// is cut to 152; the archetype is then mapped.
pub open spec fn mgef_data_fo4(b: Seq<u8>) -> Seq<u8> {
    let cut = if b.len() == 160 {
        (b.take(4) + b.skip(8)).take(152)
    } else if b.len() == 156 {
        b.take(152)
    } else {
        b
    };
    archetype_normalized(cut)
}

/// A magic-effect `DATA` entry in FO4's layout.
pub open spec fn mgef_entry(e: EntryView) -> EntryView {
    if e.sig == code('D', 'A', 'T', 'A') && e.value is Bytes {
        EntryView { value: FieldView::Bytes(mgef_data_fo4(e.value->Bytes_0)), ..e }
    } else {
        e
    }
}

fn mgef_entry_exec(e: FieldEntry) -> (r: FieldEntry)
    ensures
        r@ == mgef_entry(e@),
{
    if !sig_is(e.sig.0, 'D', 'A', 'T', 'A') {
        return e;
    }
    let FieldEntry { sig, value } = e;
    match value {
        FieldValue::Bytes(b) => {
            let mut b = b;
            let ghost b0 = b@;
            if b.len() == 160 {
                let mut tail = b.split_off(8);
                b.truncate(4);
                b.append(&mut tail);
                assert(b@ =~= b0.take(4) + b0.skip(8));
                b.truncate(152);
            } else if b.len() == 156 {
                b.truncate(152);
            }
            Fo76Fo4Hook::normalize_mgef_archetype(&mut b);
            FieldEntry { sig: sig, value: FieldValue::Bytes(b) }
        },
        other => FieldEntry { sig: sig, value: other },
    }
}

impl Fo76Fo4Hook {
    /// Map a magic effect's archetype to FO4's.
    pub fn normalize_mgef_archetype(bytes: &mut Vec<u8>)
        ensures
            final(bytes)@ == archetype_normalized(old(bytes)@),
    {
        if bytes.len() < 68 {
            return;
        }
        let a = read_u32_le(bytes.as_slice(), 64);
        let mapped: Option<u32> = if a == 52 {
            Some(33)
        } else if a == 50 || a == 51 || a > 49 {
            Some(1)
        } else {
            None
        };
        if let Some(m) = mapped {
            write_u32_le(bytes, 64, m);
        }
    }

    /// Lay a magic effect's data out as FO4's.
    pub fn convert_mgef_data_to_fo4_layout(record: &mut Record)
        ensures
            old(record)@.sig == code('M', 'G', 'E', 'F') ==> final(record)@ == map_fields(old(record)@, |e: EntryView| mgef_entry(e)),
            old(record)@.sig != code('M', 'G', 'E', 'F') ==> final(record)@ == old(record)@,
    {
        if !sig_is(record.sig.0, 'M', 'G', 'E', 'F') {
            return;
        }
        crate::retain::map_entries(&mut record.fields, mgef_entry_exec, Ghost(|e: EntryView| mgef_entry(e)));
    }
}


/// A scene's entries with every action row laid out for FO4, read from
/// the front: an entry before any action (`ANAM`) is kept as it is; an
/// action and the entries up to the next action form a row, replaced by
/// its FO4 layout.
pub open spec fn scen_rows_laid_out(f: Seq<EntryView>, plugin: Sym) -> Seq<EntryView>
    decreases f.len(),
{
    if f.len() == 0 {
        Seq::empty()
    } else if f[0].sig != code('A', 'N', 'A', 'M') {
        seq![f[0]] + scen_rows_laid_out(f.drop_first(), plugin)
    } else {
        let g = crate::pack::group_end(f);
        proof {
            crate::pack::lemma_group_end(f);
        }
        scen_row_out(f.take(g), plugin) + scen_rows_laid_out(f.skip(g), plugin)
    }
}

/// Whether no entry of `x` from `start` on is an action.
pub open spec fn scen_no_action_from(x: Seq<EntryView>, start: int) -> bool {
    forall|i: int| start <= i < x.len() ==> (#[trigger] x[i]).sig != code('A', 'N', 'A', 'M')
}

proof fn lemma_laid_out_without_actions(x: Seq<EntryView>, plugin: Sym)
    requires
        scen_no_action_from(x, 0),
    ensures
        scen_rows_laid_out(x, plugin) == x,
    decreases x.len(),
{
    if x.len() > 0 {
        let t = x.drop_first();
        assert forall|i: int| 0 <= i < t.len() implies (#[trigger] t[i]).sig != code('A', 'N', 'A', 'M') by {
            assert(t[i] == x[i + 1]);
        }
        lemma_laid_out_without_actions(t, plugin);
        assert(x[0].sig != code('A', 'N', 'A', 'M'));
        assert(seq![x[0]] + t =~= x);
    }
}

proof fn lemma_group_end_of_add(y: Seq<EntryView>, z: Seq<EntryView>)
    requires
        y.len() > 0,
        z.len() > 0 ==> z[0].sig == code('A', 'N', 'A', 'M'),
    ensures
        crate::pack::group_end(y + z) == crate::pack::group_end(y),
{
    let p = |e: EntryView| e.sig == code('A', 'N', 'A', 'M');
    let a = (y + z).drop_first();
    let b = y.drop_first();
    crate::fields::lemma_first_where_bounds(b, p);
    crate::fields::lemma_first_where_none(b, p);
    match crate::fields::first_where(b, p) {
        Some(j) => {
            assert forall|i: int| 0 <= i < j implies !p(a[i]) by {
                assert(a[i] == b[i]);
            }
            assert(a[j] == b[j]);
            crate::fields::lemma_first_where(a, p, j);
        },
        None => {
            assert forall|i: int| 0 <= i < b.len() implies !p(a[i]) by {
                assert(a[i] == b[i]);
            }
            if z.len() > 0 {
                assert(a[b.len() as int] == z[0]);
            } else {
                assert(a.len() == b.len());
            }
            crate::fields::lemma_first_where(a, p, b.len() as int);
        },
    }
}

proof fn lemma_laid_out_add(y: Seq<EntryView>, z: Seq<EntryView>, plugin: Sym)
    requires
        z.len() > 0 ==> z[0].sig == code('A', 'N', 'A', 'M'),
    ensures
        scen_rows_laid_out(y + z, plugin) == scen_rows_laid_out(y, plugin) + scen_rows_laid_out(z, plugin),
    decreases y.len(),
{
    if y.len() == 0 {
        assert(y + z =~= z);
        assert(scen_rows_laid_out(y, plugin) =~= Seq::<EntryView>::empty());
        assert(Seq::<EntryView>::empty() + scen_rows_laid_out(z, plugin) =~= scen_rows_laid_out(z, plugin));
    } else if y[0].sig != code('A', 'N', 'A', 'M') {
        lemma_laid_out_add(y.drop_first(), z, plugin);
        assert((y + z).drop_first() =~= y.drop_first() + z);
        assert((y + z)[0] == y[0]);
    } else {
        let g = crate::pack::group_end(y);
        crate::pack::lemma_group_end(y);
        lemma_group_end_of_add(y, z);
        lemma_laid_out_add(y.skip(g), z, plugin);
        assert((y + z)[0] == y[0]);
        assert((y + z).take(g) =~= y.take(g));
        assert((y + z).skip(g) =~= y.skip(g) + z);
    }
}

proof fn lemma_laid_out_row(row: Seq<EntryView>, plugin: Sym)
    requires
        row.len() > 0,
        row[0].sig == code('A', 'N', 'A', 'M'),
        scen_no_action_from(row, 1),
    ensures
        scen_rows_laid_out(row, plugin) == scen_row_out(row, plugin),
{
    let p = |e: EntryView| e.sig == code('A', 'N', 'A', 'M');
    let b = row.drop_first();
    assert forall|i: int| 0 <= i < b.len() implies !p(b[i]) by {
        assert(b[i] == row[i + 1]);
    }
    crate::fields::lemma_first_where(b, p, b.len() as int);
    assert(crate::pack::group_end(row) == row.len());
    assert(row.take(row.len() as int) =~= row);
    assert(row.skip(row.len() as int) =~= Seq::<EntryView>::empty());
    assert(scen_rows_laid_out(Seq::<EntryView>::empty(), plugin) =~= Seq::<EntryView>::empty());
    assert(scen_rows_laid_out(row, plugin) == scen_row_out(row.take(row.len() as int), plugin)
        + scen_rows_laid_out(row.skip(row.len() as int), plugin));
    assert(scen_row_out(row, plugin) + Seq::<EntryView>::empty() =~= scen_row_out(row, plugin));
}

proof fn lemma_scen_scan_state(x: Seq<EntryView>, plugin: Sym)
    ensures
        ({
            let (out, row, open) = scen_scan(x, plugin);
            &&& !open ==> scen_no_action_from(x, 0) && out == x
            &&& open ==> {
                &&& 0 < row.len() <= x.len()
                &&& row[0].sig == code('A', 'N', 'A', 'M')
                &&& scen_no_action_from(row, 1)
                &&& x == x.take(x.len() - row.len()) + row
                &&& out == scen_rows_laid_out(x.take(x.len() - row.len()), plugin)
            }
        }),
    decreases x.len(),
{
    if x.len() > 0 {
        let t = x.drop_last();
        lemma_scen_scan_state(t, plugin);
        let (out, row, open) = scen_scan(t, plugin);
        let e = x.last();
        assert(t.push(e) =~= x);
        if e.sig == code('A', 'N', 'A', 'M') {
            if open {
                let y = t.take(t.len() - row.len());
                lemma_laid_out_add(y, row, plugin);
                lemma_laid_out_row(row, plugin);
                assert(x.take(x.len() - 1) =~= t);
            } else {
                lemma_laid_out_without_actions(t, plugin);
                assert(x.take(x.len() - 1) =~= t);
            }
            assert(x == x.take(x.len() - 1) + seq![e]);
        } else if open {
            let y = t.take(t.len() - row.len());
            let row2 = row.push(e);
            assert(x.take(x.len() - row2.len()) =~= y);
            assert(x =~= y + row2);
            assert forall|i: int| 1 <= i < row2.len() implies (#[trigger] row2[i]).sig != code('A', 'N', 'A', 'M') by {
                if i < row.len() {
                    assert(row2[i] == row[i]);
                }
            }
        } else {
            assert forall|i: int| 0 <= i < x.len() implies (#[trigger] x[i]).sig != code('A', 'N', 'A', 'M') by {
                if i < t.len() {
                    assert(x[i] == t[i]);
                }
            }
        }
    }
}

/// A scene's action rows are laid out one by one from the front: every
/// entry before the first action is kept as it is, and each action with
/// the entries up to the next action is replaced by the row's FO4 layout.
pub proof fn law_scene_rows_laid_out(f: Seq<EntryView>, plugin: Sym)
    ensures
        scen_choices(f, plugin) == scen_rows_laid_out(f, plugin),
{
    lemma_scen_scan_state(f, plugin);
    let (out, row, open) = scen_scan(f, plugin);
    if open {
        let y = f.take(f.len() - row.len());
        lemma_laid_out_add(y, row, plugin);
        lemma_laid_out_row(row, plugin);
    } else {
        lemma_laid_out_without_actions(f, plugin);
    }
}

} // verus!
