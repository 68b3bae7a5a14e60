//! QUST scope stripping: the FO76 quest event scope, objective-scoped
//! stage setters, objective target conditions and FO76-only quest data go;
//! the alias chain stays, with aliases that lost their event fill marked
//! optional.
use vstd::prelude::*;
use crate::effects::Fo76Fo4Hook;
use crate::model::{code, code_in, entries_view, sig_is, tag, EntryView, FieldEntry, Record, RecordView};
use crate::values::{alias_optional_flag, mark_qust_alias_fnam_optional, with_bits_set};

verus! {

/// Subrecords of the QUST alias chain.
pub open spec fn qust_alias_sigs() -> Seq<[u8; 4]> {
    seq![
        code('A', 'L', 'S', 'T'),
        code('A', 'L', 'I', 'D'),
        code('F', 'N', 'A', 'M'),
        code('A', 'L', 'F', 'I'),
        code('A', 'L', 'F', 'R'),
        code('A', 'L', 'U', 'A'),
        code('A', 'L', 'F', 'A'),
        code('K', 'N', 'A', 'M'),
        code('A', 'L', 'R', 'T'),
        code('A', 'L', 'E', 'Q'),
        code('A', 'L', 'E', 'A'),
        code('A', 'L', 'C', 'O'),
        code('A', 'L', 'C', 'A'),
        code('A', 'L', 'C', 'L'),
        code('A', 'L', 'N', 'A'),
        code('A', 'L', 'N', 'T'),
        code('A', 'L', 'F', 'E'),
        code('A', 'L', 'F', 'D'),
        code('A', 'L', 'C', 'C'),
        code('C', 'T', 'D', 'A'),
        code('C', 'I', 'S', '1'),
        code('C', 'I', 'S', '2'),
        code('K', 'S', 'I', 'Z'),
        code('K', 'W', 'D', 'A'),
        code('C', 'O', 'C', 'T'),
        code('C', 'N', 'T', 'O'),
        code('C', 'O', 'E', 'D'),
        code('S', 'P', 'O', 'R'),
        code('O', 'C', 'O', 'R'),
        code('G', 'W', 'O', 'R'),
        code('E', 'C', 'O', 'R'),
        code('A', 'L', 'L', 'A'),
        code('A', 'L', 'D', 'N'),
        code('A', 'L', 'F', 'V'),
        code('A', 'L', 'D', 'I'),
        code('A', 'L', 'S', 'P'),
        code('A', 'L', 'F', 'C'),
        code('A', 'L', 'P', 'C'),
        code('V', 'T', 'C', 'K'),
        code('A', 'L', 'E', 'D'),
        code('A', 'L', 'L', 'S'),
        code('A', 'L', 'F', 'L'),
        code('A', 'L', 'C', 'S'),
        code('A', 'L', 'M', 'I'),
    ]
}

fn qust_alias_sigs_list() -> (r: Vec<[u8; 4]>)
    ensures
        r@ == qust_alias_sigs(),
{
    let r: Vec<[u8; 4]> =
    vec![
        tag('A', 'L', 'S', 'T'),
        tag('A', 'L', 'I', 'D'),
        tag('F', 'N', 'A', 'M'),
        tag('A', 'L', 'F', 'I'),
        tag('A', 'L', 'F', 'R'),
        tag('A', 'L', 'U', 'A'),
        tag('A', 'L', 'F', 'A'),
        tag('K', 'N', 'A', 'M'),
        tag('A', 'L', 'R', 'T'),
        tag('A', 'L', 'E', 'Q'),
        tag('A', 'L', 'E', 'A'),
        tag('A', 'L', 'C', 'O'),
        tag('A', 'L', 'C', 'A'),
        tag('A', 'L', 'C', 'L'),
        tag('A', 'L', 'N', 'A'),
        tag('A', 'L', 'N', 'T'),
        tag('A', 'L', 'F', 'E'),
        tag('A', 'L', 'F', 'D'),
        tag('A', 'L', 'C', 'C'),
        tag('C', 'T', 'D', 'A'),
        tag('C', 'I', 'S', '1'),
        tag('C', 'I', 'S', '2'),
        tag('K', 'S', 'I', 'Z'),
        tag('K', 'W', 'D', 'A'),
        tag('C', 'O', 'C', 'T'),
        tag('C', 'N', 'T', 'O'),
        tag('C', 'O', 'E', 'D'),
        tag('S', 'P', 'O', 'R'),
        tag('O', 'C', 'O', 'R'),
        tag('G', 'W', 'O', 'R'),
        tag('E', 'C', 'O', 'R'),
        tag('A', 'L', 'L', 'A'),
        tag('A', 'L', 'D', 'N'),
        tag('A', 'L', 'F', 'V'),
        tag('A', 'L', 'D', 'I'),
        tag('A', 'L', 'S', 'P'),
        tag('A', 'L', 'F', 'C'),
        tag('A', 'L', 'P', 'C'),
        tag('V', 'T', 'C', 'K'),
        tag('A', 'L', 'E', 'D'),
        tag('A', 'L', 'L', 'S'),
        tag('A', 'L', 'F', 'L'),
        tag('A', 'L', 'C', 'S'),
        tag('A', 'L', 'M', 'I'),
    ];
    assert(r@ =~= qust_alias_sigs());
    r
}

/// Subrecords that open a new alias in the chain.
pub open spec fn qust_alias_anchor_sigs() -> Seq<[u8; 4]> {
    seq![
        code('A', 'L', 'S', 'T'),
        code('A', 'L', 'L', 'S'),
        code('A', 'L', 'C', 'S'),
    ]
}

fn qust_alias_anchor_sigs_list() -> (r: Vec<[u8; 4]>)
    ensures
        r@ == qust_alias_anchor_sigs(),
{
    let r: Vec<[u8; 4]> =
    vec![
        tag('A', 'L', 'S', 'T'),
        tag('A', 'L', 'L', 'S'),
        tag('A', 'L', 'C', 'S'),
    ];
    assert(r@ =~= qust_alias_anchor_sigs());
    r
}

/// Condition subrecords that follow an objective target.
pub open spec fn qust_target_condition_sigs() -> Seq<[u8; 4]> {
    seq![
        code('C', 'T', 'D', 'A'),
        code('C', 'I', 'S', '1'),
        code('C', 'I', 'S', '2'),
    ]
}

fn qust_target_condition_sigs_list() -> (r: Vec<[u8; 4]>)
    ensures
        r@ == qust_target_condition_sigs(),
{
    let r: Vec<[u8; 4]> =
    vec![
        tag('C', 'T', 'D', 'A'),
        tag('C', 'I', 'S', '1'),
        tag('C', 'I', 'S', '2'),
    ];
    assert(r@ =~= qust_target_condition_sigs());
    r
}

/// QUST subrecords FO4 does not accept (alias event fills among them).
pub open spec fn qust_drop_sigs() -> Seq<[u8; 4]> {
    seq![
        code('A', 'C', 'B', 'S'),
        code('A', 'L', 'F', 'C'),
        code('A', 'L', 'F', 'E'),
        code('A', 'L', 'F', 'D'),
        code('A', 'L', 'S', 'O'),
        code('A', 'T', 'T', 'R'),
        code('C', 'O', 'E', 'D'),
        code('D', 'T', 'G', 'T'),
        code('E', 'S', 'A', 'V'),
        code('E', 'S', 'C', 'E'),
        code('E', 'S', 'C', 'S'),
        code('E', 'S', 'D', 'A'),
        code('E', 'S', 'R', 'P'),
        code('E', 'S', 'R', 'V'),
        code('K', 'N', 'A', 'M'),
        code('N', 'A', 'M', '8'),
        code('Q', 'U', 'C', 'F'),
        code('S', 'C', 'C', 'M'),
        code('S', 'C', 'F', 'C'),
        code('S', 'D', 'C', 'T'),
        code('S', 'P', 'P', 'I'),
        code('S', 'P', 'P', 'T'),
        code('T', 'R', 'A', 'E'),
        code('V', 'N', 'A', 'M'),
    ]
}

fn qust_drop_sigs_list() -> (r: Vec<[u8; 4]>)
    ensures
        r@ == qust_drop_sigs(),
{
    let r: Vec<[u8; 4]> =
    vec![
        tag('A', 'C', 'B', 'S'),
        tag('A', 'L', 'F', 'C'),
        tag('A', 'L', 'F', 'E'),
        tag('A', 'L', 'F', 'D'),
        tag('A', 'L', 'S', 'O'),
        tag('A', 'T', 'T', 'R'),
        tag('C', 'O', 'E', 'D'),
        tag('D', 'T', 'G', 'T'),
        tag('E', 'S', 'A', 'V'),
        tag('E', 'S', 'C', 'E'),
        tag('E', 'S', 'C', 'S'),
        tag('E', 'S', 'D', 'A'),
        tag('E', 'S', 'R', 'P'),
        tag('E', 'S', 'R', 'V'),
        tag('K', 'N', 'A', 'M'),
        tag('N', 'A', 'M', '8'),
        tag('Q', 'U', 'C', 'F'),
        tag('S', 'C', 'C', 'M'),
        tag('S', 'C', 'F', 'C'),
        tag('S', 'D', 'C', 'T'),
        tag('S', 'P', 'P', 'I'),
        tag('S', 'P', 'P', 'T'),
        tag('T', 'R', 'A', 'E'),
        tag('V', 'N', 'A', 'M'),
    ];
    assert(r@ =~= qust_drop_sigs());
    r
}

/// The state of a scan over a quest's subrecords: what is kept so far and
/// the scope the scan is in.
pub struct QustScan {
    pub out: Seq<EntryView>,
    pub after_alias_id: bool,
    pub after_target: bool,
    pub in_objective: bool,
    pub fnam_index: Option<int>,
    pub lost_fill: bool,
}

/// The state before the first subrecord.
pub open spec fn qust_scan_start() -> QustScan {
    QustScan {
        out: Seq::empty(),
        after_alias_id: false,
        after_target: false,
        in_objective: false,
        fnam_index: None,
        lost_fill: false,
    }
}

/// An entry whose value has the alias "optional" flag set.
pub open spec fn optional_entry(e: EntryView) -> EntryView {
    EntryView { value: with_bits_set(e.value, alias_optional_flag()), ..e }
}

/// The kept entries with the one at `idx` (when any) marked optional.
pub open spec fn marked_optional(out: Seq<EntryView>, idx: Option<int>) -> Seq<EntryView> {
    match idx {
        Some(i) => if 0 <= i < out.len() {
            out.update(i, optional_entry(out[i]))
        } else {
            out
        },
        None => out,
    }
}

/// One step of the scan: `ENAM` (the quest event scope) is dropped and
/// closes objective scope; `ANAM` is kept and opens the alias chain; an
/// `SNAM` inside an objective is dropped; alias-chain subrecords are kept
/// unless FO4 rejects them, and dropping an alias's event fill marks that
/// alias's `FNAM` optional; `QSTA` and the conditions after it are dropped;
/// the rest is kept unless FO4 rejects it.
pub open spec fn qust_step(st: QustScan, e: EntryView) -> QustScan {
    let s = e.sig;
    if s == code('E', 'N', 'A', 'M') {
        QustScan { after_target: false, in_objective: false, ..st }
    } else {
        let in_obj = st.in_objective || s == code('Q', 'O', 'B', 'J');
        if s == code('A', 'N', 'A', 'M') {
            QustScan {
                out: st.out.push(e),
                after_alias_id: true,
                after_target: false,
                in_objective: false,
                ..st
            }
        } else if in_obj && s == code('S', 'N', 'A', 'M') {
            QustScan { after_target: false, in_objective: in_obj, ..st }
        } else if st.after_alias_id && qust_alias_sigs().contains(s) {
            let anchor = qust_alias_anchor_sigs().contains(s);
            let fnam_index = if anchor { None } else { st.fnam_index };
            let lost = if anchor { false } else { st.lost_fill };
            if qust_drop_sigs().contains(s) {
                if s == code('A', 'L', 'F', 'E') || s == code('A', 'L', 'F', 'D') {
                    QustScan {
                        out: marked_optional(st.out, fnam_index),
                        after_target: false,
                        in_objective: in_obj,
                        fnam_index: fnam_index,
                        lost_fill: true,
                        ..st
                    }
                } else {
                    QustScan {
                        after_target: false,
                        in_objective: in_obj,
                        fnam_index: fnam_index,
                        lost_fill: lost,
                        ..st
                    }
                }
            } else if s == code('F', 'N', 'A', 'M') {
                QustScan {
                    out: st.out.push(if lost { optional_entry(e) } else { e }),
                    after_target: false,
                    in_objective: in_obj,
                    fnam_index: Some(st.out.len() as int),
                    lost_fill: lost,
                    ..st
                }
            } else {
                QustScan {
                    out: st.out.push(e),
                    after_target: false,
                    in_objective: in_obj,
                    fnam_index: fnam_index,
                    lost_fill: lost,
                    ..st
                }
            }
        } else if s == code('Q', 'S', 'T', 'A') {
            QustScan { after_target: true, in_objective: in_obj, ..st }
        } else if st.after_target && qust_target_condition_sigs().contains(s) {
            QustScan { in_objective: in_obj, ..st }
        } else if qust_drop_sigs().contains(s) {
            QustScan { after_target: false, in_objective: in_obj, ..st }
        } else {
            QustScan { out: st.out.push(e), after_target: false, in_objective: in_obj, ..st }
        }
    }
}

/// The scan over a sequence of subrecords.
pub open spec fn qust_scan(fields: Seq<EntryView>) -> QustScan
    decreases fields.len(),
{
    if fields.len() == 0 {
        qust_scan_start()
    } else {
        qust_step(qust_scan(fields.drop_last()), fields.last())
    }
}

/// A quest with its runtime scopes stripped.
pub open spec fn stripped_qust_scopes(r: RecordView) -> RecordView {
    RecordView { fields: qust_scan(r.fields).out, ..r }
}

fn mark_kept_optional(kept: &mut Vec<FieldEntry>, i: usize)
    requires
        i < old(kept)@.len(),
    ensures
        entries_view(final(kept)@) == marked_optional(entries_view(old(kept)@), Some(i as int)),
{
    let ghost before = entries_view(kept@);
    let mut e = kept.remove(i);
    mark_qust_alias_fnam_optional(&mut e.value);
    kept.insert(i, e);
    assert(entries_view(kept@) =~= marked_optional(before, Some(i as int)));
}

impl Fo76Fo4Hook {
    /// Strip a quest's FO76 runtime scopes, keeping its alias chain.
    #[verifier::rlimit(50)]
    pub fn strip_qust_runtime_scopes(record: &mut Record)
        ensures
            old(record)@.sig != code('Q', 'U', 'S', 'T') ==> final(record)@ == old(record)@,
            old(record)@.sig == code('Q', 'U', 'S', 'T') ==> final(record)@ == stripped_qust_scopes(
                old(record)@,
            ),
    {
        if !sig_is(record.sig.0, 'Q', 'U', 'S', 'T') {
            return;
        }
        let alias_sigs = qust_alias_sigs_list();
        let anchor_sigs = qust_alias_anchor_sigs_list();
        let target_sigs = qust_target_condition_sigs_list();
        let drop_sigs = qust_drop_sigs_list();
        let ghost orig = entries_view(record.fields@);
        let mut rest: Vec<FieldEntry> = Vec::new();
        core::mem::swap(&mut record.fields, &mut rest);
        let mut kept: Vec<FieldEntry> = Vec::new();
        let mut after_alias_id = false;
        let mut after_target = false;
        let mut in_objective = false;
        let mut fnam_index: Option<usize> = None;
        let mut lost_fill = false;
        let n = rest.len();
        let mut idx: usize = 0;
        while idx < n
            invariant
                orig.len() == n,
                idx <= n,
                rest@.len() == n - idx,
                forall|j: int| 0 <= j < rest@.len() ==> rest@[j]@ == orig[idx + j],
                alias_sigs@ == qust_alias_sigs(),
                anchor_sigs@ == qust_alias_anchor_sigs(),
                target_sigs@ == qust_target_condition_sigs(),
                drop_sigs@ == qust_drop_sigs(),
                ({
                    let st = qust_scan(orig.take(idx as int));
                    &&& entries_view(kept@) == st.out
                    &&& after_alias_id == st.after_alias_id
                    &&& after_target == st.after_target
                    &&& in_objective == st.in_objective
                    &&& lost_fill == st.lost_fill
                    &&& (fnam_index matches Some(i) ==> st.fnam_index == Some(i as int) && i < kept@.len())
                    &&& (fnam_index is None ==> st.fnam_index is None)
                }),
            decreases n - idx,
        {
            let e = rest.remove(0);
            let ghost st = qust_scan(orig.take(idx as int));
            proof {
                assert(orig.take(idx + 1).drop_last() =~= orig.take(idx as int));
                assert(orig.take(idx + 1).last() == orig[idx as int]);
                assert(e@ == orig[idx as int]);
                assert(qust_scan(orig.take(idx + 1)) == qust_step(st, orig[idx as int]));
            }
            let s = e.sig.0;
            if sig_is(s, 'E', 'N', 'A', 'M') {
                after_target = false;
                in_objective = false;
            } else {
                if sig_is(s, 'Q', 'O', 'B', 'J') {
                    in_objective = true;
                }
                if sig_is(s, 'A', 'N', 'A', 'M') {
                    after_alias_id = true;
                    after_target = false;
                    in_objective = false;
                    let ghost before = entries_view(kept@);
                    kept.push(e);
                    assert(entries_view(kept@) =~= before.push(orig[idx as int]));
                } else if in_objective && sig_is(s, 'S', 'N', 'A', 'M') {
                    after_target = false;
                } else if after_alias_id && code_in(s, alias_sigs.as_slice()) {
                    after_target = false;
                    if code_in(s, anchor_sigs.as_slice()) {
                        fnam_index = None;
                        lost_fill = false;
                    }
                    if code_in(s, drop_sigs.as_slice()) {
                        if sig_is(s, 'A', 'L', 'F', 'E') || sig_is(s, 'A', 'L', 'F', 'D') {
                            lost_fill = true;
                            if let Some(i) = fnam_index {
                                mark_kept_optional(&mut kept, i);
                            }
                        }
                    } else if sig_is(s, 'F', 'N', 'A', 'M') {
                        let mut e = e;
                        if lost_fill {
                            mark_qust_alias_fnam_optional(&mut e.value);
                        }
                        fnam_index = Some(kept.len());
                        let ghost before = entries_view(kept@);
                        let ghost ev = e@;
                        kept.push(e);
                        assert(entries_view(kept@) =~= before.push(ev));
                    } else {
                        let ghost before = entries_view(kept@);
                        kept.push(e);
                        assert(entries_view(kept@) =~= before.push(orig[idx as int]));
                    }
                } else if sig_is(s, 'Q', 'S', 'T', 'A') {
                    after_target = true;
                } else if after_target && code_in(s, target_sigs.as_slice()) {
                } else {
                    after_target = false;
                    if !code_in(s, drop_sigs.as_slice()) {
                        let ghost before = entries_view(kept@);
                        kept.push(e);
                        assert(entries_view(kept@) =~= before.push(orig[idx as int]));
                    }
                }
            }
            proof {
                let nst = qust_step(st, orig[idx as int]);
                assert(entries_view(kept@) == nst.out);
                assert(after_alias_id == nst.after_alias_id);
                assert(after_target == nst.after_target);
                assert(in_objective == nst.in_objective);
                assert(lost_fill == nst.lost_fill);
                assert(fnam_index matches Some(i) ==> nst.fnam_index == Some(i as int));
                assert(fnam_index matches Some(i) ==> i < kept@.len());
                assert(fnam_index is None ==> nst.fnam_index is None);
            }
            idx = idx + 1;
        }
        assert(orig.take(n as int) =~= orig);
        record.fields = kept;
    }
}


/// Whether a quest may keep a subrecord of code `s`: no event scope
/// (`ENAM`), no objective target (`QSTA`) and none of FO76's quest-only
/// subrecords.
pub open spec fn qust_keepable(s: [u8; 4]) -> bool {
    s != code('E', 'N', 'A', 'M') && s != code('Q', 'S', 'T', 'A') && !qust_drop_sigs().contains(s)
}

proof fn lemma_qust_scan_keepable(f: Seq<EntryView>)
    ensures
        forall|j: int| 0 <= j < qust_scan(f).out.len() ==> qust_keepable(#[trigger] qust_scan(f).out[j].sig),
    decreases f.len(),
{
    if f.len() > 0 {
        let t = f.drop_last();
        lemma_qust_scan_keepable(t);
        let st = qust_scan(t);
        let e = f.last();
        let s = e.sig;
        let st2 = qust_scan(f);
        assert(st2 == qust_step(st, e));
        if s == code('A', 'N', 'A', 'M') {
            assert(qust_keepable(s)) by {
                assert(!qust_drop_sigs().contains(s)) by {
                    if qust_drop_sigs().contains(s) {
                        let k = choose|k: int| 0 <= k < qust_drop_sigs().len() && qust_drop_sigs()[k] == s;
                        assert(qust_drop_sigs()[k][3] == s[3]);
                    }
                }
            }
        }
        if st.after_alias_id && qust_alias_sigs().contains(s) && s != code('E', 'N', 'A', 'M') && s != code(
            'A',
            'N',
            'A',
            'M',
        ) {
            assert(s != code('Q', 'S', 'T', 'A')) by {
                if s == code('Q', 'S', 'T', 'A') {
                    let k = choose|k: int| 0 <= k < qust_alias_sigs().len() && qust_alias_sigs()[k] == s;
                    assert(qust_alias_sigs()[k][0] == s[0]);
                    assert(qust_alias_sigs()[k][1] == s[1]);
                }
            }
        }
        assert forall|j: int| 0 <= j < st2.out.len() implies qust_keepable(#[trigger] st2.out[j].sig) by {
            if j < st.out.len() {
                assert(st2.out[j].sig == st.out[j].sig);
            }
        }
    }
}

/// A quest stripped of its runtime scopes keeps no event scope (`ENAM`),
/// no objective target (`QSTA`) and none of FO76's quest-only subrecords.
pub proof fn law_qust_scopes_gone(r: RecordView)
    ensures
        forall|j: int| 0 <= j < stripped_qust_scopes(r).fields.len() ==> qust_keepable(
            #[trigger] stripped_qust_scopes(r).fields[j].sig,
        ),
{
    lemma_qust_scan_keepable(r.fields);
}

} // verus!
