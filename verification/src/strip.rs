//! Hooks that drop FO76-only subrecords.
use vstd::prelude::*;
use crate::effects::Fo76Fo4Hook;
use crate::model::{
    code, entries_view, sig_is, tag, EntryView, FieldEntry, FieldValue, FieldView, Record, RecordView,
    SigCode,
};
use crate::conditions::{is_condition_sig, is_condition_string_sig};
use crate::values::{
    field_value_has_non_empty_text, has_text, onam_usable, scol_onam_is_usable, set_u32_zero, zeroed,
};
use crate::retain::retain_where;
use crate::text::{bytes_eq_ignore_case, eq_ignore_case, lit, StringInterner};
use vstd::string::StringSliceAdditionalSpecFns;

verus! {

/// Subrecords dropped from every record before translation.
pub open spec fn global_drop_sig(s: [u8; 4]) -> bool {
    ||| s == code('V', 'C', 'T', 'X')
    ||| s == code('F', 'V', 'E', 'R')
    ||| s == code('F', 'L', '7', '6')
    ||| s == code('F', 'L', 'W', 'R')
    ||| s == code('M', 'I', 'I', 'D')
    ||| s == code('M', 'A', 'G', 'F')
    ||| s == code('C', 'O', 'D', 'V')
    ||| s == code('O', 'P', 'D', 'S')
}

/// Whether a subrecord is dropped from every record before translation.
pub fn is_global_drop_sig(s: [u8; 4]) -> (r: bool)
    ensures
        r == global_drop_sig(s),
{
    sig_is(s, 'V', 'C', 'T', 'X') || sig_is(s, 'F', 'V', 'E', 'R') || sig_is(s, 'F', 'L', '7', '6')
        || sig_is(s, 'F', 'L', 'W', 'R') || sig_is(s, 'M', 'I', 'I', 'D') || sig_is(
        s,
        'M',
        'A',
        'G',
        'F',
    ) || sig_is(s, 'C', 'O', 'D', 'V') || sig_is(s, 'O', 'P', 'D', 'S')
}

/// Whether an entry survives the global drop.
fn outside_global_drop(e: &FieldEntry) -> (b: bool)
    ensures
        b == !global_drop_sig(e.sig.0),
{
    !is_global_drop_sig(e.sig.0)
}

/// The record with only the entries satisfying `p`.
pub open spec fn keep_only(r: RecordView, p: spec_fn(EntryView) -> bool) -> RecordView {
    RecordView { fields: r.fields.filter(p), ..r }
}

impl Fo76Fo4Hook {
    /// Drop every subrecord in the global drop list.
    pub fn drop_global_fields(record: &mut Record)
        ensures
            final(record)@ == keep_only(old(record)@, |e: EntryView| !global_drop_sig(e.sig)),
    {
        retain_where(
            &mut record.fields,
            outside_global_drop,
            Ghost(|e: EntryView| !global_drop_sig(e.sig)),
        );
    }
}

} // verus!

verus! {

/// WRLD runtime tables FO4 rebuilds itself: RNAM, MHDT, OFST, CLSZ.
pub open spec fn wrld_runtime_table_sig(s: [u8; 4]) -> bool {
    ||| s == code('R', 'N', 'A', 'M')
    ||| s == code('M', 'H', 'D', 'T')
    ||| s == code('O', 'F', 'S', 'T')
    ||| s == code('C', 'L', 'S', 'Z')
}

fn outside_wrld_runtime_tables(e: &FieldEntry) -> (b: bool)
    ensures
        b == !wrld_runtime_table_sig(e.sig.0),
{
    let s = e.sig.0;
    !(sig_is(s, 'R', 'N', 'A', 'M') || sig_is(s, 'M', 'H', 'D', 'T') || sig_is(s, 'O', 'F', 'S', 'T')
        || sig_is(s, 'C', 'L', 'S', 'Z'))
}

fn not_vmad(e: &FieldEntry) -> (b: bool)
    ensures
        b == (e.sig.0 != code('V', 'M', 'A', 'D')),
{
    !sig_is(e.sig.0, 'V', 'M', 'A', 'D')
}

fn not_edid(e: &FieldEntry) -> (b: bool)
    ensures
        b == (e.sig.0 != code('E', 'D', 'I', 'D')),
{
    !sig_is(e.sig.0, 'E', 'D', 'I', 'D')
}

/// Activation-condition subrecords: CNDC, CITC, CTDA, CTDT, CIS1, CIS2.
pub open spec fn activation_condition_sig(s: [u8; 4]) -> bool {
    ||| s == code('C', 'N', 'D', 'C')
    ||| s == code('C', 'I', 'T', 'C')
    ||| s == code('C', 'T', 'D', 'A')
    ||| s == code('C', 'T', 'D', 'T')
    ||| s == code('C', 'I', 'S', '1')
    ||| s == code('C', 'I', 'S', '2')
}

fn outside_activation_conditions(e: &FieldEntry) -> (b: bool)
    ensures
        b == !activation_condition_sig(e.sig.0),
{
    let s = e.sig.0;
    !(sig_is(s, 'C', 'N', 'D', 'C') || sig_is(s, 'C', 'I', 'T', 'C') || sig_is(s, 'C', 'T', 'D', 'A')
        || sig_is(s, 'C', 'T', 'D', 'T') || sig_is(s, 'C', 'I', 'S', '1') || sig_is(
        s,
        'C',
        'I',
        'S',
        '2',
    ))
}

/// An ACTI whose editor id is `ScorchedStatue01`, ignoring ASCII case.
pub open spec fn is_scorched_statue(interner: StringInterner, r: RecordView) -> bool {
    &&& r.sig == code('A', 'C', 'T', 'I')
    &&& r.eid is Some
    &&& interner.spec_resolve(r.eid->0) is Some
    &&& eq_ignore_case(interner.spec_resolve(r.eid->0)->0, "ScorchedStatue01".spec_bytes())
}

impl Fo76Fo4Hook {
    /// Drop the runtime tables of a WRLD.
    pub fn strip_wrld_runtime_tables(record: &mut Record)
        ensures
            old(record)@.sig != code('W', 'R', 'L', 'D') ==> final(record)@ == old(record)@,
            old(record)@.sig == code('W', 'R', 'L', 'D') ==> final(record)@ == keep_only(
                old(record)@,
                |e: EntryView| !wrld_runtime_table_sig(e.sig),
            ),
    {
        if !sig_is(record.sig.0, 'W', 'R', 'L', 'D') {
            return;
        }
        retain_where(
            &mut record.fields,
            outside_wrld_runtime_tables,
            Ghost(|e: EntryView| !wrld_runtime_table_sig(e.sig)),
        );
    }

    /// Drop the script data of a PERK.
    pub fn drop_perk_vmad(record: &mut Record)
        ensures
            old(record)@.sig != code('P', 'E', 'R', 'K') ==> final(record)@ == old(record)@,
            old(record)@.sig == code('P', 'E', 'R', 'K') ==> final(record)@ == keep_only(
                old(record)@,
                |e: EntryView| e.sig != code('V', 'M', 'A', 'D'),
            ),
    {
        if !sig_is(record.sig.0, 'P', 'E', 'R', 'K') {
            return;
        }
        retain_where(&mut record.fields, not_vmad, Ghost(|e: EntryView| e.sig != code('V', 'M', 'A', 'D')));
    }

    /// Drop the editor id of an INFO.
    pub fn strip_info_editor_id(record: &mut Record)
        ensures
            old(record)@.sig != code('I', 'N', 'F', 'O') ==> final(record)@ == old(record)@,
            old(record)@.sig == code('I', 'N', 'F', 'O') ==> final(record)@ == keep_only(
                old(record)@,
                |e: EntryView| e.sig != code('E', 'D', 'I', 'D'),
            ),
    {
        if sig_is(record.sig.0, 'I', 'N', 'F', 'O') {
            retain_where(&mut record.fields, not_edid, Ghost(|e: EntryView| e.sig != code('E', 'D', 'I', 'D')));
        }
    }

    /// Drop the activation conditions of the `ScorchedStatue01` activator.
    pub fn strip_scorched_statue_activation_conditions(interner: &StringInterner, record: &mut Record)
        ensures
            !is_scorched_statue(*interner, old(record)@) ==> final(record)@ == old(record)@,
            is_scorched_statue(*interner, old(record)@) ==> final(record)@ == keep_only(
                old(record)@,
                |e: EntryView| !activation_condition_sig(e.sig),
            ),
    {
        if !sig_is(record.sig.0, 'A', 'C', 'T', 'I') {
            return;
        }
        let matches = match record.eid {
            Some(sym) => match interner.resolve(sym) {
                Some(eid) => bytes_eq_ignore_case(eid, lit("ScorchedStatue01")),
                None => false,
            },
            None => false,
        };
        if !matches {
            return;
        }
        retain_where(
            &mut record.fields,
            outside_activation_conditions,
            Ghost(|e: EntryView| !activation_condition_sig(e.sig)),
        );
    }
}

} // verus!

verus! {

/// Subrecords an empty SCOL keeps when it becomes a STAT.
pub open spec fn scol_stat_sig(s: [u8; 4]) -> bool {
    ||| s == code('E', 'D', 'I', 'D')
    ||| s == code('V', 'M', 'A', 'D')
    ||| s == code('O', 'B', 'N', 'D')
    ||| s == code('P', 'T', 'R', 'N')
    ||| s == code('M', 'O', 'D', 'L')
    ||| s == code('M', 'O', 'D', 'T')
    ||| s == code('M', 'O', 'D', 'C')
    ||| s == code('M', 'O', 'D', 'S')
    ||| s == code('M', 'O', 'D', 'F')
    ||| s == code('F', 'U', 'L', 'L')
}

fn in_scol_stat_sigs(e: &FieldEntry) -> (b: bool)
    ensures
        b == scol_stat_sig(e.sig.0),
{
    let s = e.sig.0;
    sig_is(s, 'E', 'D', 'I', 'D') || sig_is(s, 'V', 'M', 'A', 'D') || sig_is(s, 'O', 'B', 'N', 'D')
        || sig_is(s, 'P', 'T', 'R', 'N') || sig_is(s, 'M', 'O', 'D', 'L') || sig_is(
        s,
        'M',
        'O',
        'D',
        'T',
    ) || sig_is(s, 'M', 'O', 'D', 'C') || sig_is(s, 'M', 'O', 'D', 'S') || sig_is(
        s,
        'M',
        'O',
        'D',
        'F',
    ) || sig_is(s, 'F', 'U', 'L', 'L')
}

/// A SCOL with no usable `ONAM` part but with a non-empty `MODL` model
/// path: it is converted into a STAT.
pub open spec fn is_nif_backed_empty_scol(interner: StringInterner, r: RecordView) -> bool {
    &&& r.sig == code('S', 'C', 'O', 'L')
    &&& !(exists|j: int|
        0 <= j < r.fields.len() && r.fields[j].sig == code('O', 'N', 'A', 'M') && onam_usable(
            #[trigger] r.fields[j].value,
        ))
    &&& exists|j: int|
        0 <= j < r.fields.len() && r.fields[j].sig == code('M', 'O', 'D', 'L') && has_text(
            interner,
            #[trigger] r.fields[j].value,
        )
}

impl Fo76Fo4Hook {
    /// Turn a SCOL with no usable part but with its own model into a STAT
    /// that keeps only the STAT subrecords.
    pub fn convert_nif_backed_empty_scol_to_stat(interner: &StringInterner, record: &mut Record)
        ensures
            !is_nif_backed_empty_scol(*interner, old(record)@) ==> final(record)@ == old(record)@,
            is_nif_backed_empty_scol(*interner, old(record)@) ==> final(record)@ == (RecordView {
                sig: code('S', 'T', 'A', 'T'),
                fields: old(record)@.fields.filter(|e: EntryView| scol_stat_sig(e.sig)),
                ..old(record)@
            }),
    {
        if !sig_is(record.sig.0, 'S', 'C', 'O', 'L') {
            return;
        }
        let ghost v = record@.fields;
        let mut usable = false;
        let mut has_model = false;
        let mut i: usize = 0;
        while i < record.fields.len()
            invariant
                i <= record.fields@.len(),
                v == entries_view(record.fields@),
                usable == exists|j: int|
                    0 <= j < i && v[j].sig == code('O', 'N', 'A', 'M') && onam_usable(#[trigger] v[j].value),
                has_model == exists|j: int|
                    0 <= j < i && v[j].sig == code('M', 'O', 'D', 'L') && has_text(*interner, #[trigger] v[j].value),
            decreases record.fields@.len() - i,
        {
            assert(v[i as int] == record.fields@[i as int]@);
            let s = record.fields[i].sig.0;
            let u = sig_is(s, 'O', 'N', 'A', 'M') && scol_onam_is_usable(&record.fields[i].value);
            let m = sig_is(s, 'M', 'O', 'D', 'L') && field_value_has_non_empty_text(
                &record.fields[i].value,
                interner,
            );
            assert(u == (v[i as int].sig == code('O', 'N', 'A', 'M') && onam_usable(v[i as int].value)));
            assert(m == (v[i as int].sig == code('M', 'O', 'D', 'L') && has_text(*interner, v[i as int].value)));
            usable = usable || u;
            has_model = has_model || m;
            i = i + 1;
        }
        if usable || !has_model {
            return;
        }
        record.sig = SigCode(tag('S', 'T', 'A', 'T'));
        retain_where(&mut record.fields, in_scol_stat_sigs, Ghost(|e: EntryView| scol_stat_sig(e.sig)));
    }
}

/// Marker-parameter rows of TERM/FURN `SNAM`: 24 bytes each.
pub open spec fn marker_row_len() -> nat {
    24
}

/// Whether a TERM `SNAM` survives: decoded marker rows (a non-empty list or
/// a struct) or a non-empty whole number of raw rows; other entries survive.
pub open spec fn term_snam_kept(e: EntryView) -> bool {
    e.sig != code('S', 'N', 'A', 'M') || match e.value {
        FieldView::List(items) => items.len() > 0,
        FieldView::Struct(_) => true,
        FieldView::Bytes(b) => b.len() > 0 && b.len() % 24 == 0,
        _ => false,
    }
}

fn keeps_term_snam(e: &FieldEntry) -> (b: bool)
    ensures
        b == term_snam_kept(e@),
{
    if !sig_is(e.sig.0, 'S', 'N', 'A', 'M') {
        return true;
    }
    match &e.value {
        FieldValue::List(items) => {
            proof {
                crate::model::lemma_list_view(e.value);
            }
            items.len() > 0
        },
        FieldValue::Struct(_) => true,
        FieldValue::Bytes(bytes) => bytes.len() > 0 && bytes.len() % 24 == 0,
        _ => false,
    }
}

impl Fo76Fo4Hook {
    /// Drop TERM `SNAM` entries that are not marker-parameter rows.
    pub fn strip_term_looping_sound_snam(record: &mut Record)
        ensures
            old(record)@.sig != code('T', 'E', 'R', 'M') ==> final(record)@ == old(record)@,
            old(record)@.sig == code('T', 'E', 'R', 'M') ==> final(record)@ == keep_only(
                old(record)@,
                |e: EntryView| term_snam_kept(e),
            ),
    {
        if !sig_is(record.sig.0, 'T', 'E', 'R', 'M') {
            return;
        }
        retain_where(&mut record.fields, keeps_term_snam, Ghost(|e: EntryView| term_snam_kept(e)));
    }
}

fn not_condition_data(e: &FieldEntry) -> (b: bool)
    ensures
        b == !(is_condition_sig(e.sig.0) || is_condition_string_sig(e.sig.0)),
{
    let s = e.sig.0;
    !(sig_is(s, 'C', 'T', 'D', 'A') || sig_is(s, 'C', 'T', 'D', 'T') || sig_is(s, 'C', 'I', 'S', '1')
        || sig_is(s, 'C', 'I', 'S', '2'))
}

/// A `CITC` entry with its count zeroed; other entries unchanged.
pub open spec fn citc_zeroed(e: EntryView) -> EntryView {
    if e.sig == code('C', 'I', 'T', 'C') {
        EntryView { value: zeroed(e.value), ..e }
    } else {
        e
    }
}

fn zero_citc(e: FieldEntry) -> (r: FieldEntry)
    ensures
        r@ == citc_zeroed(e@),
{
    let mut e = e;
    if sig_is(e.sig.0, 'C', 'I', 'T', 'C') {
        set_u32_zero(&mut e.value);
    }
    e
}

/// A PACK without its conditions and their strings; when any were dropped,
/// every `CITC` count is zeroed.
pub open spec fn without_pack_runtime_refs(r: RecordView) -> RecordView {
    let k = r.fields.filter(|e: EntryView| !(is_condition_sig(e.sig) || is_condition_string_sig(e.sig)));
    if k.len() < r.fields.len() {
        RecordView { fields: k.map_values(|e: EntryView| citc_zeroed(e)), ..r }
    } else {
        RecordView { fields: k, ..r }
    }
}

impl Fo76Fo4Hook {
    /// Drop the conditions of a PACK and zero its condition count.
    pub fn strip_pack_runtime_refs(record: &mut Record)
        ensures
            old(record)@.sig != code('P', 'A', 'C', 'K') ==> final(record)@ == old(record)@,
            old(record)@.sig == code('P', 'A', 'C', 'K') ==> final(record)@
                == without_pack_runtime_refs(old(record)@),
    {
        if !sig_is(record.sig.0, 'P', 'A', 'C', 'K') {
            return;
        }
        let before = record.fields.len();
        retain_where(
            &mut record.fields,
            not_condition_data,
            Ghost(|e: EntryView| !(is_condition_sig(e.sig) || is_condition_string_sig(e.sig))),
        );
        if record.fields.len() < before {
            crate::retain::map_entries(&mut record.fields, zero_citc, Ghost(|e: EntryView| citc_zeroed(e)));
        }
    }
}

} // verus!
