//! QUST handling: relayout of the FO76 `DATA` quest data into the FO4
//! `DNAM` layout, and the editor-id rules that decide which quests may start
//! with the game.
use vstd::prelude::*;
use vstd::string::StringSliceAdditionalSpecFns;
use crate::bytes::{le16, splice, u16_bytes, read_u16_le, write_u16_le, lemma_le16_splice};
use crate::effects::Fo76Fo4Hook;
use crate::fields::{first_with_sig, first_where, has_sig, find_sig, lemma_first_where};
use crate::model::{
    code, sig_is, tag, same_code, copy_bytes, EntryView, FieldEntry, FieldValue, FieldView,
    Record, RecordView, SubrecordSig,
};
use crate::text::{
    bytes_contains, bytes_eq, bytes_starts_with, bytes_until_nul, contains, lit, lower,
    starts_with, to_lower, until_nul, utf8_valid, StringInterner,
};

verus! {

/// FO76 quest types that may not start with the game: public event (6) and
/// event (8).
pub open spec fn disables_start_game(quest_type: u8) -> bool {
    quest_type == 6 || quest_type == 8
}

/// Whether an FO76 quest of this type may not start with the game.
pub fn fo76_qust_type_disables_start_game(quest_type: u8) -> (r: bool)
    ensures
        r == disables_start_game(quest_type),
{
    quest_type == 6 || quest_type == 8
}

/// The FO4 `DNAM` (12 bytes) laid out from an FO76 `DATA` payload of 20
/// bytes (64-bit flags) or 16 bytes (32-bit flags): the low 16 flag bits,
/// the priority, the delay time and the quest type keep their values; every
/// other byte is zero. Other lengths have no relayout.
pub open spec fn fo4_dnam_from_fo76(data: Seq<u8>) -> Option<Seq<u8>> {
    if data.len() == 20 {
        Some(seq![data[0], data[1], data[8], 0u8, data[12], data[13], data[14], data[15], data[16], 0u8, 0u8, 0u8])
    } else if data.len() == 16 {
        Some(seq![data[0], data[1], data[4], 0u8, data[8], data[9], data[10], data[11], data[12], 0u8, 0u8, 0u8])
    } else {
        None
    }
}

/// Relayout an FO76 QUST `DATA` payload as an FO4 QUST `DNAM` payload.
pub fn build_fo4_qust_dnam_from_fo76_data(data: &[u8]) -> (r: Option<Vec<u8>>)
    ensures
        r is Some <==> fo4_dnam_from_fo76(data@) is Some,
        r matches Some(d) ==> fo4_dnam_from_fo76(data@) == Some(d@),
{
    let (priority, delay, quest_type) = if data.len() == 20 {
        (8usize, 12usize, 16usize)
    } else if data.len() == 16 {
        (4usize, 8usize, 12usize)
    } else {
        return None;
    };
    let mut dnam: Vec<u8> = Vec::new();
    dnam.push(data[0]);
    dnam.push(data[1]);
    dnam.push(data[priority]);
    dnam.push(0);
    dnam.push(data[delay]);
    dnam.push(data[delay + 1]);
    dnam.push(data[delay + 2]);
    dnam.push(data[delay + 3]);
    dnam.push(data[quest_type]);
    dnam.push(0);
    dnam.push(0);
    dnam.push(0);
    assert(fo4_dnam_from_fo76(data@) == Some(dnam@)) by {
        assert(dnam@ =~= fo4_dnam_from_fo76(data@)->0);
    }
    Some(dnam)
}

/// `dnam` with `start_game_enabled` (flag 0x0001) set when
/// `has_dialogue_data` (flag 0x8000) is set; unchanged otherwise or when it
/// is shorter than the two flag bytes.
pub open spec fn forced_autostart(dnam: Seq<u8>) -> Seq<u8> {
    if dnam.len() >= 2 && le16(dnam, 0) & 0x8000 != 0 {
        splice(dnam, 0, u16_bytes(le16(dnam, 0) | 1))
    } else {
        dnam
    }
}

/// `dnam` with `start_game_enabled` (flag 0x0001) cleared; unchanged when it
/// is shorter than the two flag bytes.
pub open spec fn suppressed_autostart(dnam: Seq<u8>) -> Seq<u8> {
    if dnam.len() >= 2 {
        splice(dnam, 0, u16_bytes(le16(dnam, 0) & 0xfffe))
    } else {
        dnam
    }
}

/// Force `start_game_enabled` on a freshly built DNAM whose
/// `has_dialogue_data` flag is set.
pub fn force_dialogue_quest_autostart(dnam: &mut Vec<u8>)
    ensures
        final(dnam)@ == forced_autostart(old(dnam)@),
{
    if dnam.len() < 2 {
        return;
    }
    let flags = read_u16_le(dnam.as_slice(), 0);
    if flags & 0x8000 == 0 {
        return;
    }
    write_u16_le(dnam, 0, flags | 1);
}

/// Clear `start_game_enabled` so the quest never starts with the game.
pub fn suppress_quest_autostart(dnam: &mut Vec<u8>)
    ensures
        final(dnam)@ == suppressed_autostart(old(dnam)@),
{
    if dnam.len() < 2 {
        return;
    }
    let flags = read_u16_le(dnam.as_slice(), 0);
    write_u16_le(dnam, 0, flags & 0xfffe);
}

/// The text of an `EDID` value: a resolved symbol, or the bytes before the
/// first NUL when they are well-formed UTF-8.
pub open spec fn edid_text(interner: StringInterner, v: FieldView) -> Option<Seq<u8>> {
    match v {
        FieldView::String(sym) => interner.spec_resolve(sym),
        FieldView::Bytes(b) => if vstd::utf8::valid_utf8(until_nul(b)) {
            Some(until_nul(b))
        } else {
            None
        },
        _ => None,
    }
}

/// The lower-cased editor id of a quest: the record's own editor-id symbol
/// when it resolves, otherwise the text of its first `EDID` entry.
pub open spec fn qust_eid(interner: StringInterner, r: RecordView) -> Option<Seq<u8>> {
    if r.eid is Some && interner.spec_resolve(r.eid->0) is Some {
        Some(lower(interner.spec_resolve(r.eid->0)->0))
    } else {
        match first_with_sig(r.fields, code('E', 'D', 'I', 'D')) {
            Some(i) => match edid_text(interner, r.fields[i].value) {
                Some(t) => Some(lower(t)),
                None => None,
            },
            None => None,
        }
    }
}

/// The lower-cased editor id of a quest record, if it has one.
pub fn qust_eid_lower(interner: &StringInterner, record: &Record) -> (r: Option<Vec<u8>>)
    ensures
        r is Some <==> qust_eid(*interner, record@) is Some,
        r matches Some(s) ==> qust_eid(*interner, record@) == Some(s@),
{
    if let Some(sym) = record.eid {
        if let Some(eid) = interner.resolve(sym) {
            return Some(to_lower(eid));
        }
    }
    let Some(i) = find_sig(&record.fields, tag('E', 'D', 'I', 'D')) else {
        return None;
    };
    assert(record@.fields[i as int].value == record.fields@[i as int].value@);
    match &record.fields[i].value {
        FieldValue::String(sym) => match interner.resolve(*sym) {
            Some(s) => Some(to_lower(s)),
            None => None,
        },
        FieldValue::Bytes(bytes) => {
            let text = bytes_until_nul(bytes.as_slice());
            if utf8_valid(text.as_slice()) {
                Some(to_lower(text.as_slice()))
            } else {
                None
            }
        },
        _ => None,
    }
}

/// Conversation quests: the editor id names `dialogue` or `npcconversation`.
pub open spec fn eid_is_dialogue(s: Seq<u8>) -> bool {
    contains(s, "dialogue".spec_bytes()) || contains(s, "npcconversation".spec_bytes())
}

/// Developer test or scratch quests: the editor id starts with `test` or `zz`.
pub open spec fn eid_is_test_or_dev(s: Seq<u8>) -> bool {
    starts_with(s, "test".spec_bytes()) || starts_with(s, "zz".spec_bytes())
}

/// Radio-station quests: the editor id names `radio`, except the high-school
/// PA scene quest.
pub open spec fn eid_is_radio(s: Seq<u8>) -> bool {
    contains(s, "radio".spec_bytes()) && s != "cb_highschoolpasystem_radioscenes".spec_bytes()
}

/// Holotape scene containers: the editor id names `holotapequest` or
/// `holotapes`.
pub open spec fn eid_is_holotape(s: Seq<u8>) -> bool {
    contains(s, "holotapequest".spec_bytes()) || contains(s, "holotapes".spec_bytes())
}

/// Whether the quest's editor id marks an NPC conversation quest.
pub fn qust_eid_is_dialogue_conversation(interner: &StringInterner, record: &Record) -> (r: bool)
    ensures
        r == (qust_eid(*interner, record@) matches Some(s) && eid_is_dialogue(s)),
{
    match qust_eid_lower(interner, record) {
        Some(s) => bytes_contains(s.as_slice(), lit("dialogue")) || bytes_contains(
            s.as_slice(),
            lit("npcconversation"),
        ),
        None => false,
    }
}

/// Whether the quest's editor id marks a developer test or scratch quest.
pub fn qust_eid_is_test_or_dev(interner: &StringInterner, record: &Record) -> (r: bool)
    ensures
        r == (qust_eid(*interner, record@) matches Some(s) && eid_is_test_or_dev(s)),
{
    match qust_eid_lower(interner, record) {
        Some(s) => bytes_starts_with(s.as_slice(), lit("test")) || bytes_starts_with(
            s.as_slice(),
            lit("zz"),
        ),
        None => false,
    }
}

/// Whether the quest's editor id marks a radio-station quest.
pub fn qust_eid_is_radio(interner: &StringInterner, record: &Record) -> (r: bool)
    ensures
        r == (qust_eid(*interner, record@) matches Some(s) && eid_is_radio(s)),
{
    match qust_eid_lower(interner, record) {
        Some(s) => bytes_contains(s.as_slice(), lit("radio")) && !bytes_eq(
            s.as_slice(),
            lit("cb_highschoolpasystem_radioscenes"),
        ),
        None => false,
    }
}

/// Whether the quest's editor id marks a holotape scene container.
pub fn qust_eid_is_holotape(interner: &StringInterner, record: &Record) -> (r: bool)
    ensures
        r == (qust_eid(*interner, record@) matches Some(s) && eid_is_holotape(s)),
{
    match qust_eid_lower(interner, record) {
        Some(s) => bytes_contains(s.as_slice(), lit("holotapequest")) || bytes_contains(
            s.as_slice(),
            lit("holotapes"),
        ),
        None => false,
    }
}

} // verus!

verus! {

/// A `DATA` entry holding raw bytes.
pub open spec fn is_raw_data(e: EntryView) -> bool {
    e.sig == code('D', 'A', 'T', 'A') && e.value is Bytes
}

/// The start-game flag decision for a relaid-out DNAM: event quest types are
/// suppressed; conversation and holotape quests (unless test/dev) are forced
/// on; radio quests (unless test/dev) keep their flag; every other quest is
/// suppressed.
pub open spec fn qust_autostart(dnam: Seq<u8>, interner: StringInterner, r: RecordView) -> Seq<u8> {
    let eid = qust_eid(interner, r);
    let test = eid matches Some(s) && eid_is_test_or_dev(s);
    let dialogue = !test && (eid matches Some(s) && eid_is_dialogue(s));
    let holotape = !test && (eid matches Some(s) && eid_is_holotape(s));
    let radio = !test && (eid matches Some(s) && eid_is_radio(s));
    if disables_start_game(dnam[8]) {
        suppressed_autostart(dnam)
    } else if dialogue || holotape {
        forced_autostart(dnam)
    } else if !radio {
        suppressed_autostart(dnam)
    } else {
        dnam
    }
}

/// A QUST without `DNAM` has its first raw `DATA` entry replaced by a `DNAM`
/// entry holding the relaid-out quest data with the start-game decision
/// applied; any other record, or a `DATA` of unknown length, is unchanged.
pub open spec fn converted_qust(interner: StringInterner, r: RecordView) -> RecordView {
    if r.sig != code('Q', 'U', 'S', 'T') || has_sig(r.fields, code('D', 'N', 'A', 'M')) {
        r
    } else {
        match first_where(r.fields, |e: EntryView| is_raw_data(e)) {
            None => r,
            Some(i) => match fo4_dnam_from_fo76(r.fields[i].value->Bytes_0) {
                None => r,
                Some(d) => RecordView {
                    fields: r.fields.update(
                        i,
                        EntryView {
                            sig: code('D', 'N', 'A', 'M'),
                            value: FieldView::Bytes(qust_autostart(d, interner, r)),
                        },
                    ),
                    ..r
                },
            },
        }
    }
}

impl Fo76Fo4Hook {
    /// Relayout FO76 QUST `DATA` quest data as the FO4 `DNAM`.
    pub fn convert_qust_data_to_fo4_dnam(interner: &StringInterner, record: &mut Record)
        ensures
            final(record)@ == converted_qust(*interner, old(record)@),
    {
        if !sig_is(record.sig.0, 'Q', 'U', 'S', 'T') {
            return;
        }
        if find_sig(&record.fields, tag('D', 'N', 'A', 'M')).is_some() {
            return;
        }
        let is_test_or_dev = qust_eid_is_test_or_dev(interner, record);
        let is_dialogue = !is_test_or_dev && qust_eid_is_dialogue_conversation(interner, record);
        let is_holotape = !is_test_or_dev && qust_eid_is_holotape(interner, record);
        let is_radio = !is_test_or_dev && qust_eid_is_radio(interner, record);
        let ghost pred = |e: EntryView| is_raw_data(e);
        let ghost v = old(record)@;
        let mut i: usize = 0;
        #[verifier::loop_isolation(false)]
        while i < record.fields.len()
            invariant
                i <= record.fields@.len(),
                *record == *old(record),
                v == old(record)@,
                forall|j: int| 0 <= j < i ==> !pred(v.fields[j]),
            decreases record.fields@.len() - i,
        {
            let is_candidate = sig_is(record.fields[i].sig.0, 'D', 'A', 'T', 'A') && match &record.fields[i].value {
                FieldValue::Bytes(_) => true,
                _ => false,
            };
            if is_candidate {
                proof {
                    assert(v.fields[i as int] == record.fields@[i as int]@);
                    lemma_first_where(v.fields, pred, i as int);
                }
                let built = match &record.fields[i].value {
                    FieldValue::Bytes(bytes) => build_fo4_qust_dnam_from_fo76_data(bytes.as_slice()),
                    _ => None,
                };
                let Some(mut dnam) = built else {
                    return;
                };
                if fo76_qust_type_disables_start_game(dnam[8]) {
                    suppress_quest_autostart(&mut dnam);
                } else if is_dialogue || is_holotape {
                    force_dialogue_quest_autostart(&mut dnam);
                } else if !is_radio {
                    suppress_quest_autostart(&mut dnam);
                }
                let ghost d = dnam@;
                record.fields.set(i, FieldEntry { sig: SubrecordSig(tag('D', 'N', 'A', 'M')), value: FieldValue::Bytes(dnam) });
                assert(record@.fields =~= converted_qust(*interner, v).fields);
                return;
            }
            i = i + 1;
        }
        proof {
            lemma_first_where(v.fields, pred, i as int);
        }
    }
}


/// The start-game flags (the low 16 flag bits) a quest's FO4 `DNAM` ends up
/// with, from its FO76 flags `f`, quest type and lower-case editor id:
/// cleared for event types and test or scratch quests; set for
/// conversation and holotape quests that have dialogue data; kept for
/// those without it and for radio quests; cleared for every other quest.
pub open spec fn qust_start_flags(f: u16, quest_type: u8, eid: Option<Seq<u8>>) -> u16 {
    let test = eid matches Some(s) && eid_is_test_or_dev(s);
    let talk = eid matches Some(s) && (eid_is_dialogue(s) || eid_is_holotape(s));
    let radio = eid matches Some(s) && eid_is_radio(s);
    if disables_start_game(quest_type) || test {
        f & 0xfffe
    } else if talk && f & 0x8000 != 0 {
        f | 1
    } else if talk || radio {
        f
    } else {
        f & 0xfffe
    }
}

/// A FO76 quest without `DNAM` gets, in place of its first raw `DATA`, a
/// twelve-byte `DNAM` laid out from that data, whose start-game flags are
/// decided by the quest's type and editor id.
pub proof fn law_qust_dnam_flags(interner: StringInterner, r: RecordView, i: int)
    requires
        r.sig == code('Q', 'U', 'S', 'T'),
        !has_sig(r.fields, code('D', 'N', 'A', 'M')),
        first_where(r.fields, |e: EntryView| is_raw_data(e)) == Some(i),
        fo4_dnam_from_fo76(r.fields[i].value->Bytes_0) is Some,
    ensures
        ({
            let d = r.fields[i].value->Bytes_0;
            let dn = fo4_dnam_from_fo76(d)->0;
            let e = converted_qust(interner, r).fields[i];
            &&& e.sig == code('D', 'N', 'A', 'M')
            &&& e.value matches FieldView::Bytes(out) && out.len() == 12 && le16(out, 0) == qust_start_flags(
                le16(d, 0),
                dn[8],
                qust_eid(interner, r),
            ) && out.subrange(2, 12) == dn.subrange(2, 12)
        }),
{
    crate::fields::lemma_first_where_bounds(r.fields, |e: EntryView| is_raw_data(e));
    let d = r.fields[i].value->Bytes_0;
    let dn = fo4_dnam_from_fo76(d)->0;
    let out = qust_autostart(dn, interner, r);
    assert(converted_qust(interner, r).fields[i] == EntryView {
        sig: code('D', 'N', 'A', 'M'),
        value: FieldView::Bytes(out),
    });
    assert(dn.len() == 12);
    assert(le16(dn, 0) == le16(d, 0));
    let f = le16(dn, 0);
    let fs = (f & 0xfffe) as u16;
    let fo = (f | 1) as u16;
    lemma_le16_splice(dn, 0, fs);
    lemma_le16_splice(dn, 0, fo);
    assert(splice(dn, 0, u16_bytes(fs)).subrange(2, 12) =~= dn.subrange(2, 12));
    assert(splice(dn, 0, u16_bytes(fo)).subrange(2, 12) =~= dn.subrange(2, 12));
}


/// Only public-event (6) and event (8) quests are kept from starting with
/// the game by their type.
pub proof fn law_event_quest_types(quest_type: u8)
    ensures
        disables_start_game(quest_type) <==> quest_type == 6 || quest_type == 8,
{
}


/// The FO4 `DNAM` is twelve bytes: the low 16 flag bits, the priority, a
/// zero, the four delay bytes, the quest type and three zeros, read from
/// offsets 0, 8, 12 and 16 of a 20-byte FO76 `DATA` (64-bit flags) or 0, 4,
/// 8 and 12 of a 16-byte one; other lengths have no layout.
pub proof fn law_qust_dnam_layout(d: Seq<u8>)
    ensures
        d.len() == 20 ==> fo4_dnam_from_fo76(d) == Some(
            seq![d[0], d[1], d[8], 0u8, d[12], d[13], d[14], d[15], d[16], 0u8, 0u8, 0u8],
        ),
        d.len() == 16 ==> fo4_dnam_from_fo76(d) == Some(
            seq![d[0], d[1], d[4], 0u8, d[8], d[9], d[10], d[11], d[12], 0u8, 0u8, 0u8],
        ),
        d.len() != 20 && d.len() != 16 ==> fo4_dnam_from_fo76(d) is None,
{
}

} // verus!
