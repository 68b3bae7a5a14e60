//! Dialogue records: FO76's `INFO` flag bit 17 becomes FO4's "say once",
//! scene head-tracking aliases outside a topic action become raw ids, scene
//! dialogue actions are read out of their `ANAM` rows, and an action with
//! fewer than four player choices can have its empty player slots padded
//! with a filler topic.
use vstd::prelude::*;
use crate::actors::{source_form_key_value, source_form_key_view};
use crate::bytes::{le32, read_u32_le, splice, u32_bytes, write_u32_le};
use crate::effects::Fo76Fo4Hook;
use crate::fields::{append_entries, first_where, lemma_first_where, push_entry};
use crate::model::{code, entries_view, lemma_list_view, lemma_struct_view, named_view, sig_is, tag, values_view,
    EntryView, FieldEntry, FieldValue, FieldView, FormKey, Record, RecordView, SubrecordSig, Sym};
use crate::scenes::player_slot;

verus! {

/// FO76's `INFO` flag bit 17 (`0x2_0000`) moved to FO4's "say once"
/// (`0x4`), in an integer, in four leading bytes, and in every item and
/// member of lists and structs.
pub open spec fn say_once(v: FieldView) -> FieldView
    decreases v,
{
    match v {
        FieldView::Uint(f) => if f & 0x2_0000u64 != 0 {
            FieldView::Uint((f & !0x2_0000u64) | 4u64)
        } else {
            v
        },
        FieldView::Int(f) => if f >= 0 && (f as u64) & 0x2_0000u64 != 0 {
            FieldView::Int((((f as u64) & !0x2_0000u64) | 4u64) as i64)
        } else {
            v
        },
        FieldView::Bytes(b) => if b.len() >= 4 && le32(b, 0) & 0x2_0000u32 != 0 {
            FieldView::Bytes(splice(b, 0, u32_bytes((le32(b, 0) & !0x2_0000u32) | 4u32)))
        } else {
            v
        },
        FieldView::List(items) => FieldView::List(say_once_items(items)),
        FieldView::Struct(members) => FieldView::Struct(say_once_members(members)),
        _ => v,
    }
}

/// `say_once` on every item.
pub open spec fn say_once_items(s: Seq<FieldView>) -> Seq<FieldView>
    decreases s,
{
    if s.len() == 0 {
        s
    } else {
        seq![say_once(s[0])] + say_once_items(s.subrange(1, s.len() as int))
    }
}

/// `say_once` on every member's value.
pub open spec fn say_once_members(s: Seq<(Sym, FieldView)>) -> Seq<(Sym, FieldView)>
    decreases s,
{
    if s.len() == 0 {
        s
    } else {
        seq![(s[0].0, say_once(s[0].1))] + say_once_members(s.subrange(1, s.len() as int))
    }
}

proof fn lemma_say_once_items_step(s: Seq<FieldView>, i: int)
    requires
        0 <= i < s.len(),
    ensures
        say_once_items(s.subrange(i, s.len() as int)) == seq![say_once(s[i])] + say_once_items(
            s.subrange(i + 1, s.len() as int),
        ),
{
    let t = s.subrange(i, s.len() as int);
    assert(t[0] == s[i]);
    assert(t.subrange(1, t.len() as int) =~= s.subrange(i + 1, s.len() as int));
}

proof fn lemma_say_once_members_step(s: Seq<(Sym, FieldView)>, i: int)
    requires
        0 <= i < s.len(),
    ensures
        say_once_members(s.subrange(i, s.len() as int)) == seq![(s[i].0, say_once(s[i].1))] + say_once_members(
            s.subrange(i + 1, s.len() as int),
        ),
{
    let t = s.subrange(i, s.len() as int);
    assert(t[0] == s[i]);
    assert(t.subrange(1, t.len() as int) =~= s.subrange(i + 1, s.len() as int));
}

/// Move FO76's `INFO` flag bit 17 to FO4's "say once" throughout a value.
pub fn translate_info_unknown_17_to_say_once(value: &mut FieldValue)
    ensures
        final(value)@ == say_once(old(value)@),
    decreases *old(value),
{
    let ghost v0 = *value;
    match value {
        FieldValue::Uint(f) => {
            if *f & 0x2_0000 != 0 {
                *f = (*f & !0x2_0000u64) | 4;
            }
        },
        FieldValue::Int(f) => {
            if *f >= 0 && (*f as u64) & 0x2_0000 != 0 {
                *f = (((*f as u64) & !0x2_0000u64) | 4) as i64;
            }
        },
        FieldValue::Bytes(bytes) => {
            if bytes.len() >= 4 {
                let flags = read_u32_le(bytes.as_slice(), 0);
                if flags & 0x2_0000 != 0 {
                    write_u32_le(bytes, 0, (flags & !0x2_0000u32) | 4);
                }
            }
        },
        FieldValue::List(items) => {
            proof {
                lemma_list_view(v0);
            }
            let ghost all = *items;
            let ghost s0 = values_view(all@);
            let mut rest: Vec<FieldValue> = Vec::new();
            std::mem::swap(items, &mut rest);
            let n = rest.len();
            let mut done: Vec<FieldValue> = Vec::new();
            let mut i: usize = 0;
            assert(say_once_items(s0.subrange(0, s0.len() as int)) == say_once_items(s0)) by {
                assert(s0.subrange(0, s0.len() as int) =~= s0);
            }
            while i < n
                invariant
                    n == all@.len(),
                    s0 == values_view(all@),
                    s0.len() == n,
                    i <= n,
                    rest@.len() == n - i,
                    forall|j: int| 0 <= j < rest@.len() ==> rest@[j] == all@[i + j],
                    values_view(done@) + say_once_items(s0.subrange(i as int, n as int)) == say_once_items(s0),
                    v0 == FieldValue::List(all),
                    v0 == *old(value),
                decreases n - i,
            {
                let mut item = rest.remove(0);
                assert(item == all@[i as int]);
                proof {
                    assert(decreases_to!(v0 => v0->List_0));
                    assert(decreases_to!(all => all@));
                    assert(decreases_to!(all@ => all@[i as int]));
                    lemma_say_once_items_step(s0, i as int);
                }
                let ghost before = values_view(done@);
                translate_info_unknown_17_to_say_once(&mut item);
                done.push(item);
                assert(values_view(done@) =~= before.push(say_once(s0[i as int])));
                assert(values_view(done@) + say_once_items(s0.subrange(i + 1, n as int)) =~= before + (seq![
                    say_once(s0[i as int]),
                ] + say_once_items(s0.subrange(i + 1, n as int))));
                i = i + 1;
            }
            assert(say_once_items(s0.subrange(n as int, n as int)) =~= Seq::<FieldView>::empty());
            assert(values_view(done@) + Seq::<FieldView>::empty() =~= values_view(done@));
            *items = done;
            proof {
                lemma_list_view(*value);
            }
        },
        FieldValue::Struct(fields) => {
            proof {
                lemma_struct_view(v0);
            }
            let ghost all = *fields;
            let ghost s0 = named_view(all@);
            let mut rest: Vec<(Sym, FieldValue)> = Vec::new();
            std::mem::swap(fields, &mut rest);
            let n = rest.len();
            let mut done: Vec<(Sym, FieldValue)> = Vec::new();
            let mut i: usize = 0;
            assert(say_once_members(s0.subrange(0, s0.len() as int)) == say_once_members(s0)) by {
                assert(s0.subrange(0, s0.len() as int) =~= s0);
            }
            while i < n
                invariant
                    n == all@.len(),
                    s0 == named_view(all@),
                    s0.len() == n,
                    i <= n,
                    rest@.len() == n - i,
                    forall|j: int| 0 <= j < rest@.len() ==> rest@[j] == all@[i + j],
                    named_view(done@) + say_once_members(s0.subrange(i as int, n as int)) == say_once_members(s0),
                    v0 == FieldValue::Struct(all),
                    v0 == *old(value),
                decreases n - i,
            {
                let (name, mut item) = rest.remove(0);
                assert((name, item) == all@[i as int]);
                proof {
                    assert(decreases_to!(v0 => v0->Struct_0));
                    assert(decreases_to!(all => all@));
                    assert(decreases_to!(all@ => all@[i as int]));
                    assert(decreases_to!(all@[i as int] => all@[i as int].1));
                    lemma_say_once_members_step(s0, i as int);
                }
                let ghost before = named_view(done@);
                translate_info_unknown_17_to_say_once(&mut item);
                done.push((name, item));
                assert(named_view(done@) =~= before.push((s0[i as int].0, say_once(s0[i as int].1))));
                assert(named_view(done@) + say_once_members(s0.subrange(i + 1, n as int)) =~= before + (seq![
                    (s0[i as int].0, say_once(s0[i as int].1)),
                ] + say_once_members(s0.subrange(i + 1, n as int))));
                i = i + 1;
            }
            assert(say_once_members(s0.subrange(n as int, n as int)) =~= Seq::<(Sym, FieldView)>::empty());
            assert(named_view(done@) + Seq::<(Sym, FieldView)>::empty() =~= named_view(done@));
            *fields = done;
            proof {
                lemma_struct_view(*value);
            }
        },
        _ => {},
    }
}

/// An `INFO` record with the flag bit moved in every `ENAM`.
pub open spec fn info_flags_normalized(r: RecordView) -> RecordView {
    if r.sig == code('I', 'N', 'F', 'O') {
        RecordView {
            fields: r.fields.map_values(
                |e: EntryView|
                    if e.sig == code('E', 'N', 'A', 'M') {
                        EntryView { value: say_once(e.value), ..e }
                    } else {
                        e
                    },
            ),
            ..r
        }
    } else {
        r
    }
}

impl Fo76Fo4Hook {
    /// Move FO76's flag bit 17 to FO4's "say once" in every `ENAM` of an
    /// `INFO`.
    pub fn normalize_info_response_flags(record: &mut Record)
        ensures
            final(record)@ == info_flags_normalized(old(record)@),
    {
        if !sig_is(record.sig.0, 'I', 'N', 'F', 'O') {
            return;
        }
        let ghost r0 = record@;
        let ghost orig = r0.fields;
        let mut rest: Vec<FieldEntry> = Vec::new();
        core::mem::swap(&mut record.fields, &mut rest);
        let n = rest.len();
        let mut idx: usize = 0;
        while idx < n
            invariant
                orig.len() == n,
                idx <= n,
                rest@.len() == n - idx,
                forall|j: int| 0 <= j < rest@.len() ==> rest@[j]@ == orig[idx + j],
                record.fields@.len() == idx,
                forall|j: int| 0 <= j < idx ==> #[trigger] record.fields@[j]@ == (if orig[j].sig == code(
                    'E',
                    'N',
                    'A',
                    'M',
                ) {
                    EntryView { value: say_once(orig[j].value), ..orig[j] }
                } else {
                    orig[j]
                }),
                record@.sig == r0.sig,
                record@.form_key == r0.form_key,
                record@.eid == r0.eid,
            decreases n - idx,
        {
            let e = rest.remove(0);
            let FieldEntry { sig, value } = e;
            let mut value = value;
            if sig_is(sig.0, 'E', 'N', 'A', 'M') {
                translate_info_unknown_17_to_say_once(&mut value);
            }
            record.fields.push(FieldEntry { sig: sig, value: value });
            idx = idx + 1;
        }
        assert(record@.fields =~= info_flags_normalized(r0).fields);
    }
}

} // verus!

verus! {

/// Whether a topic action is open and not looping, after the entries of
/// `f`: `ANAM` starts an action (neither), `DATA` marks its topic, `DMAX`
/// its looping maximum.
pub open spec fn headtrack_state(f: Seq<EntryView>) -> (bool, bool)
    decreases f.len(),
{
    if f.len() == 0 {
        (false, false)
    } else {
        let st = headtrack_state(f.drop_last());
        let s = f.last().sig;
        if s == code('A', 'N', 'A', 'M') {
            (false, false)
        } else if s == code('D', 'A', 'T', 'A') {
            (true, st.1)
        } else if s == code('D', 'M', 'A', 'X') {
            (st.0, true)
        } else {
            st
        }
    }
}

/// A head-tracking alias (`HTID`) outside a non-looping topic action: a form
/// key becomes its raw object id.
pub open spec fn headtrack_entry(e: EntryView, st: (bool, bool)) -> EntryView {
    if e.sig == code('H', 'T', 'I', 'D') && !(st.0 && !st.1) && e.value is FormKey {
        EntryView { value: FieldView::Bytes(u32_bytes(e.value->FormKey_0.local & 0x00ff_ffffu32)), ..e }
    } else {
        e
    }
}

/// A scene with its head-tracking aliases outside non-looping topic actions
/// made raw.
pub open spec fn headtracking_normalized(r: RecordView) -> RecordView {
    if r.sig == code('S', 'C', 'E', 'N') {
        RecordView {
            fields: Seq::new(r.fields.len(), |i: int| headtrack_entry(r.fields[i], headtrack_state(r.fields.take(i)))),
            ..r
        }
    } else {
        r
    }
}

impl Fo76Fo4Hook {
    /// Make the head-tracking aliases of a scene outside non-looping topic
    /// actions raw object ids.
    pub fn normalize_scen_headtracking_aliases(record: &mut Record)
        ensures
            final(record)@ == headtracking_normalized(old(record)@),
    {
        if !sig_is(record.sig.0, 'S', 'C', 'E', 'N') {
            return;
        }
        let ghost r0 = record@;
        let ghost orig = r0.fields;
        let mut rest: Vec<FieldEntry> = Vec::new();
        core::mem::swap(&mut record.fields, &mut rest);
        let n = rest.len();
        let mut idx: usize = 0;
        let mut saw_topic = false;
        let mut saw_looping_max = false;
        while idx < n
            invariant
                orig.len() == n,
                idx <= n,
                rest@.len() == n - idx,
                forall|j: int| 0 <= j < rest@.len() ==> rest@[j]@ == orig[idx + j],
                record.fields@.len() == idx,
                forall|j: int| 0 <= j < idx ==> #[trigger] record.fields@[j]@ == headtrack_entry(
                    orig[j],
                    headtrack_state(orig.take(j)),
                ),
                (saw_topic, saw_looping_max) == headtrack_state(orig.take(idx as int)),
                record@.sig == r0.sig,
                record@.form_key == r0.form_key,
                record@.eid == r0.eid,
            decreases n - idx,
        {
            let e = rest.remove(0);
            proof {
                assert(orig.take(idx + 1).drop_last() =~= orig.take(idx as int));
                assert(orig.take(idx + 1).last() == orig[idx as int]);
            }
            let FieldEntry { sig, value } = e;
            let value = if sig_is(sig.0, 'A', 'N', 'A', 'M') {
                saw_topic = false;
                saw_looping_max = false;
                value
            } else if sig_is(sig.0, 'D', 'A', 'T', 'A') {
                saw_topic = true;
                value
            } else if sig_is(sig.0, 'D', 'M', 'A', 'X') {
                saw_looping_max = true;
                value
            } else if sig_is(sig.0, 'H', 'T', 'I', 'D') && !(saw_topic && !saw_looping_max) {
                match value {
                    FieldValue::FormKey(k) => {
                        let raw = k.local & 0x00ff_ffff;
                        let mut b: Vec<u8> = Vec::new();
                        b.push((raw % 256) as u8);
                        b.push(((raw / 256) % 256) as u8);
                        b.push(((raw / 65536) % 256) as u8);
                        b.push((raw / 16777216) as u8);
                        assert(b@ =~= u32_bytes(raw));
                        FieldValue::Bytes(b)
                    },
                    other => other,
                }
            } else {
                value
            };
            record.fields.push(FieldEntry { sig: sig, value: value });
            idx = idx + 1;
        }
        assert(record@.fields =~= headtracking_normalized(r0).fields);
    }
}

/// The player and NPC topics of one scene dialogue action.
pub struct ScenDialogueAction {
    pub player_topics: Vec<FormKey>,
    pub npc_topics: Vec<FormKey>,
}

/// The model of a dialogue action.
pub open spec fn action_view(a: ScenDialogueAction) -> (Seq<FormKey>, Seq<FormKey>) {
    (a.player_topics@, a.npc_topics@)
}

/// The form key a topic entry names, typed from a raw id where needed.
pub open spec fn topic_key(v: FieldView, plugin: Sym) -> Option<FormKey> {
    match source_form_key_view(v, plugin) {
        Some(FieldView::FormKey(k)) => Some(k),
        _ => None,
    }
}

/// The actions read so far and the open one, after the entries of `f`:
/// `ANAM` closes the open action and opens a new one; inside an action each
/// `ESCS` adds a player topic and each `ESCE` an NPC topic, when it names a
/// form.
pub open spec fn actions_scan(f: Seq<EntryView>, plugin: Sym) -> (Seq<(Seq<FormKey>, Seq<FormKey>)>, Option<(Seq<FormKey>, Seq<FormKey>)>)
    decreases f.len(),
{
    if f.len() == 0 {
        (Seq::empty(), None)
    } else {
        let (acts, cur) = actions_scan(f.drop_last(), plugin);
        let e = f.last();
        if e.sig == code('A', 'N', 'A', 'M') {
            (
                match cur {
                    Some(a) => acts.push(a),
                    None => acts,
                },
                Some((Seq::empty(), Seq::empty())),
            )
        } else {
            match cur {
                None => (acts, None),
                Some(a) => if e.sig == code('E', 'S', 'C', 'S') {
                    match topic_key(e.value, plugin) {
                        Some(k) => (acts, Some((a.0.push(k), a.1))),
                        None => (acts, cur),
                    }
                } else if e.sig == code('E', 'S', 'C', 'E') {
                    match topic_key(e.value, plugin) {
                        Some(k) => (acts, Some((a.0, a.1.push(k)))),
                        None => (acts, cur),
                    }
                } else {
                    (acts, cur)
                },
            }
        }
    }
}

/// The dialogue actions of a scene, in order; none for other records.
pub open spec fn scene_actions(r: RecordView) -> Seq<(Seq<FormKey>, Seq<FormKey>)> {
    if r.sig != code('S', 'C', 'E', 'N') {
        Seq::empty()
    } else {
        let (acts, cur) = actions_scan(r.fields, r.form_key.plugin);
        match cur {
            Some(a) => acts.push(a),
            None => acts,
        }
    }
}

fn topic_form_key(value: &FieldValue, plugin: Sym) -> (r: Option<FormKey>)
    ensures
        r == topic_key(value@, plugin),
{
    match source_form_key_value(value, plugin) {
        Some(FieldValue::FormKey(k)) => Some(k),
        _ => None,
    }
}

/// The dialogue actions of a scene, in order.
pub fn scen_dialogue_actions(record: &Record) -> (r: Vec<ScenDialogueAction>)
    ensures
        Seq::new(r@.len(), |k: int| action_view(r@[k])) == scene_actions(record@),
{
    let ghost f = record@.fields;
    let mut actions: Vec<ScenDialogueAction> = Vec::new();
    if !sig_is(record.sig.0, 'S', 'C', 'E', 'N') {
        assert(Seq::new(actions@.len(), |k: int| action_view(actions@[k])) =~= Seq::<(Seq<FormKey>, Seq<FormKey>)>::empty());
        return actions;
    }
    let plugin = record.form_key.plugin;
    let mut current: Option<ScenDialogueAction> = None;
    let mut i: usize = 0;
    while i < record.fields.len()
        invariant
            i <= f.len(),
            f == record@.fields,
            f.len() == record.fields@.len(),
            plugin == record@.form_key.plugin,
            ({
                let st = actions_scan(f.take(i as int), plugin);
                &&& Seq::new(actions@.len(), |k: int| action_view(actions@[k])) == st.0
                &&& match current {
                    Some(a) => st.1 == Some(action_view(a)),
                    None => st.1 is None,
                }
            }),
        decreases record.fields.len() - i,
    {
        let e = &record.fields[i];
        proof {
            assert(f.take(i + 1).drop_last() =~= f.take(i as int));
            assert(f.take(i + 1).last() == f[i as int]);
            assert(f[i as int] == e@);
        }
        let ghost before = Seq::new(actions@.len(), |k: int| action_view(actions@[k]));
        if sig_is(e.sig.0, 'A', 'N', 'A', 'M') {
            let fresh = ScenDialogueAction { player_topics: Vec::new(), npc_topics: Vec::new() };
            let mut prev = Some(fresh);
            std::mem::swap(&mut current, &mut prev);
            match prev {
                Some(a) => {
                    let ghost av = action_view(a);
                    actions.push(a);
                    assert(Seq::new(actions@.len(), |k: int| action_view(actions@[k])) =~= before.push(av));
                },
                None => {},
            }
            assert(action_view(current->0) == (Seq::<FormKey>::empty(), Seq::<FormKey>::empty()));
        } else {
            match current {
                Some(ref mut a) => {
                    if sig_is(e.sig.0, 'E', 'S', 'C', 'S') {
                        if let Some(k) = topic_form_key(&e.value, plugin) {
                            a.player_topics.push(k);
                        }
                    } else if sig_is(e.sig.0, 'E', 'S', 'C', 'E') {
                        if let Some(k) = topic_form_key(&e.value, plugin) {
                            a.npc_topics.push(k);
                        }
                    }
                },
                None => {},
            }
        }
        i = i + 1;
    }
    assert(f.take(f.len() as int) =~= f);
    match current {
        Some(a) => {
            let ghost before = Seq::new(actions@.len(), |k: int| action_view(actions@[k]));
            let ghost av = action_view(a);
            actions.push(a);
            assert(Seq::new(actions@.len(), |k: int| action_view(actions@[k])) =~= before.push(av));
        },
        None => {},
    }
    actions
}

/// Whether some action has more player topics than FO4's four slots.
pub fn scene_actions_require_xdi(actions: &Vec<ScenDialogueAction>) -> (r: bool)
    ensures
        r == exists|k: int| 0 <= k < actions@.len() && (#[trigger] actions@[k]).player_topics@.len() > 4,
{
    let mut k: usize = 0;
    while k < actions.len()
        invariant
            k <= actions@.len(),
            forall|q: int| 0 <= q < k ==> (#[trigger] actions@[q]).player_topics@.len() <= 4,
        decreases actions.len() - k,
    {
        if actions[k].player_topics.len() > 4 {
            assert(actions@[k as int].player_topics@.len() > 4);
            return true;
        }
        k = k + 1;
    }
    false
}

} // verus!

verus! {

/// A FO4 player response slot code.
pub open spec fn is_player_slot(s: [u8; 4]) -> bool {
    s == code('P', 'T', 'O', 'P') || s == code('N', 'T', 'O', 'P') || s == code('N', 'E', 'T', 'O') || s == code(
        'Q',
        'T',
        'O',
        'P',
    )
}

/// A FO4 NPC response slot code or the dialogue target (`DTGT`).
pub open spec fn is_npc_slot_or_target(s: [u8; 4]) -> bool {
    s == code('N', 'P', 'O', 'T') || s == code('N', 'N', 'G', 'T') || s == code('N', 'N', 'U', 'T') || s == code(
        'N',
        'Q',
        'U',
        'T',
    ) || s == code('D', 'T', 'G', 'T')
}

/// How many player response slots a row fills.
pub open spec fn player_count(row: Seq<EntryView>) -> nat
    decreases row.len(),
{
    if row.len() == 0 {
        0
    } else {
        player_count(row.drop_last()) + if is_player_slot(row.last().sig) { 1nat } else { 0nat }
    }
}

/// The filler topic in the player slots from `n` to the fourth.
pub open spec fn fillers(n: nat, filler: FormKey) -> Seq<EntryView> {
    Seq::new((4 - n) as nat, |k: int| EntryView { sig: player_slot(n + k), value: FieldView::FormKey(filler) })
}

/// An action row with one to three player slots filled, padded with the
/// filler in the remaining player slots, before its first NPC slot or
/// dialogue target (or at its end); other rows as they are.
pub open spec fn padded_row(row: Seq<EntryView>, filler: FormKey) -> Seq<EntryView> {
    let n = player_count(row);
    if n == 0 || n >= 4 {
        row
    } else {
        let at = match first_where(row, |e: EntryView| is_npc_slot_or_target(e.sig)) {
            Some(k) => k,
            None => row.len() as int,
        };
        row.take(at) + fillers(n, filler) + row.skip(at)
    }
}

fn is_player_slot_exec(s: [u8; 4]) -> (r: bool)
    ensures
        r == is_player_slot(s),
{
    sig_is(s, 'P', 'T', 'O', 'P') || sig_is(s, 'N', 'T', 'O', 'P') || sig_is(s, 'N', 'E', 'T', 'O') || sig_is(
        s,
        'Q',
        'T',
        'O',
        'P',
    )
}

fn is_npc_slot_or_target_exec(s: [u8; 4]) -> (r: bool)
    ensures
        r == is_npc_slot_or_target(s),
{
    sig_is(s, 'N', 'P', 'O', 'T') || sig_is(s, 'N', 'N', 'G', 'T') || sig_is(s, 'N', 'N', 'U', 'T') || sig_is(
        s,
        'N',
        'Q',
        'U',
        'T',
    ) || sig_is(s, 'D', 'T', 'G', 'T')
}

/// Append an action row to `retained`, its empty player slots padded with
/// the filler topic when it fills one to three of them.
pub fn push_xdi_padded_scen_action(row: Vec<FieldEntry>, filler: FormKey, retained: &mut Vec<FieldEntry>)
    ensures
        entries_view(final(retained)@) == entries_view(old(retained)@) + padded_row(entries_view(row@), filler),
{
    let ghost rv = entries_view(row@);
    let mut n: usize = 0;
    let mut k: usize = 0;
    while k < row.len()
        invariant
            k <= row@.len(),
            rv == entries_view(row@),
            n == player_count(rv.take(k as int)),
            n <= k,
        decreases row.len() - k,
    {
        proof {
            assert(rv.take(k + 1).drop_last() =~= rv.take(k as int));
            assert(rv.take(k + 1).last() == rv[k as int]);
            assert(rv[k as int] == row@[k as int]@);
        }
        if is_player_slot_exec(row[k].sig.0) {
            n = n + 1;
        }
        k = k + 1;
    }
    assert(rv.take(rv.len() as int) =~= rv);
    if n == 0 || n >= 4 {
        let mut row = row;
        append_entries(retained, &mut row);
        return;
    }
    let mut at: usize = 0;
    while at < row.len() && !is_npc_slot_or_target_exec(row[at].sig.0)
        invariant
            at <= row@.len(),
            rv == entries_view(row@),
            forall|q: int| 0 <= q < at ==> !is_npc_slot_or_target(#[trigger] rv[q].sig),
        decreases row.len() - at,
    {
        assert(rv[at as int] == row@[at as int]@);
        at = at + 1;
    }
    proof {
        if at < row@.len() {
            assert(rv[at as int] == row@[at as int]@);
        }
        lemma_first_where(rv, |e: EntryView| is_npc_slot_or_target(e.sig), at as int);
    }
    let mut head = row;
    let mut tail = head.split_off(at);
    assert(entries_view(head@) =~= rv.take(at as int));
    assert(entries_view(tail@) =~= rv.skip(at as int));
    append_entries(retained, &mut head);
    let ghost mid = entries_view(retained@);
    let mut slot = n;
    while slot < 4
        invariant
            n <= slot <= 4,
            entries_view(retained@) == mid + fillers(n as nat, filler).take(slot - n),
        decreases 4 - slot,
    {
        let ghost before = entries_view(retained@);
        let sig = if slot == 0 {
            tag('P', 'T', 'O', 'P')
        } else if slot == 1 {
            tag('N', 'T', 'O', 'P')
        } else if slot == 2 {
            tag('N', 'E', 'T', 'O')
        } else {
            tag('Q', 'T', 'O', 'P')
        };
        push_entry(retained, FieldEntry { sig: SubrecordSig(sig), value: FieldValue::FormKey(filler) });
        assert(fillers(n as nat, filler)[slot - n] == EntryView { sig: player_slot(slot as int), value: FieldView::FormKey(filler) });
        assert(entries_view(retained@) =~= mid + fillers(n as nat, filler).take(slot + 1 - n));
        slot = slot + 1;
    }
    assert(fillers(n as nat, filler).take(4 - n) =~= fillers(n as nat, filler));
    append_entries(retained, &mut tail);
}

/// The state of a scan over a scene for padding: entries out so far, the
/// open action row, and whether a row is open.
pub open spec fn pad_scan(f: Seq<EntryView>, filler: FormKey) -> (Seq<EntryView>, Seq<EntryView>, bool)
    decreases f.len(),
{
    if f.len() == 0 {
        (Seq::empty(), Seq::empty(), false)
    } else {
        let (out, row, open) = pad_scan(f.drop_last(), filler);
        let e = f.last();
        if e.sig == code('A', 'N', 'A', 'M') {
            (if open { out + padded_row(row, filler) } else { out }, seq![e], true)
        } else if open {
            (out, row.push(e), true)
        } else {
            (out.push(e), row, false)
        }
    }
}

/// A scene with every action row padded; other records as they are.
pub open spec fn scene_padded(r: RecordView, filler: FormKey) -> RecordView {
    if r.sig == code('S', 'C', 'E', 'N') {
        let (out, row, open) = pad_scan(r.fields, filler);
        RecordView { fields: if open { out + padded_row(row, filler) } else { out }, ..r }
    } else {
        r
    }
}

/// Pad the empty player slots of every action row of a scene with the
/// filler topic.
pub fn apply_xdi_scene_player_padding(record: &mut Record, filler: FormKey)
    ensures
        final(record)@ == scene_padded(old(record)@, filler),
{
    if !sig_is(record.sig.0, 'S', 'C', 'E', 'N') {
        return;
    }
    let ghost orig = record@.fields;
    let mut rest: Vec<FieldEntry> = Vec::new();
    core::mem::swap(&mut record.fields, &mut rest);
    let n = rest.len();
    let mut retained: Vec<FieldEntry> = Vec::new();
    let mut row: Vec<FieldEntry> = Vec::new();
    let mut open = false;
    let mut idx: usize = 0;
    assert(entries_view(retained@) =~= Seq::<EntryView>::empty());
    assert(entries_view(row@) =~= Seq::<EntryView>::empty());
    while idx < n
        invariant
            orig.len() == n,
            idx <= n,
            rest@.len() == n - idx,
            forall|j: int| 0 <= j < rest@.len() ==> rest@[j]@ == orig[idx + j],
            ({
                let st = pad_scan(orig.take(idx as int), filler);
                &&& entries_view(retained@) == st.0
                &&& entries_view(row@) == st.1
                &&& open == st.2
            }),
        decreases n - idx,
    {
        let e = rest.remove(0);
        proof {
            assert(orig.take(idx + 1).drop_last() =~= orig.take(idx as int));
            assert(orig.take(idx + 1).last() == orig[idx as int]);
        }
        if sig_is(e.sig.0, 'A', 'N', 'A', 'M') {
            if open {
                let mut done: Vec<FieldEntry> = Vec::new();
                core::mem::swap(&mut row, &mut done);
                push_xdi_padded_scen_action(done, filler, &mut retained);
            }
            let ghost ev = e@;
            row = Vec::new();
            row.push(e);
            assert(entries_view(row@) =~= seq![ev]);
            open = true;
        } else if open {
            push_entry(&mut row, e);
        } else {
            push_entry(&mut retained, e);
        }
        idx = idx + 1;
    }
    assert(orig.take(n as int) =~= orig);
    if open {
        push_xdi_padded_scen_action(row, filler, &mut retained);
    }
    record.fields = retained;
}

} // verus!

verus! {

proof fn lemma_player_count_add(a: Seq<EntryView>, b: Seq<EntryView>)
    ensures
        player_count(a + b) == player_count(a) + player_count(b),
    decreases b.len(),
{
    if b.len() > 0 {
        lemma_player_count_add(a, b.drop_last());
        assert((a + b).drop_last() =~= a + b.drop_last());
        assert((a + b).last() == b.last());
    } else {
        assert(a + b =~= a);
    }
}

proof fn lemma_fillers_count(n: nat, filler: FormKey, m: nat)
    requires
        n <= 4,
        m <= 4 - n,
    ensures
        player_count(fillers(n, filler).take(m as int)) == m,
    decreases m,
{
    if m > 0 {
        lemma_fillers_count(n, filler, (m - 1) as nat);
        let t = fillers(n, filler).take(m as int);
        assert(t.drop_last() =~= fillers(n, filler).take(m - 1));
        assert(t.last() == fillers(n, filler)[m - 1]);
        let k = n + m - 1;
        assert(is_player_slot(player_slot(k)));
    } else {
        assert(fillers(n, filler).take(0) =~= Seq::<EntryView>::empty());
    }
}

/// A padded action row fills all four player slots, so padding it again
/// changes nothing.
pub proof fn law_padding_fills_four_slots(row: Seq<EntryView>, filler: FormKey)
    requires
        1 <= player_count(row) <= 3,
    ensures
        player_count(padded_row(row, filler)) == 4,
        padded_row(padded_row(row, filler), filler) == padded_row(row, filler),
{
    let n = player_count(row);
    let at = match first_where(row, |e: EntryView| is_npc_slot_or_target(e.sig)) {
        Some(k) => k,
        None => row.len() as int,
    };
    crate::fields::lemma_first_where_bounds(row, |e: EntryView| is_npc_slot_or_target(e.sig));
    assert(0 <= at <= row.len());
    let fl = fillers(n, filler);
    lemma_fillers_count(n, filler, (4 - n) as nat);
    assert(fl.take(4 - n) =~= fl);
    lemma_player_count_add(row.take(at), fl);
    lemma_player_count_add(row.take(at) + fl, row.skip(at));
    lemma_player_count_add(row.take(at), row.skip(at));
    assert(row.take(at) + row.skip(at) =~= row);
}

} // verus!
