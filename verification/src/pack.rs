//! PACK procedure trees: FO76 short procedure names become FO4 names,
//! `Fallback` branches become `Sequence` branches, stray procedures get a
//! branch of their own, and alias-typed package locations and targets that
//! FO4 cannot resolve are neutralized.
use vstd::prelude::*;
use crate::text::{intern_all, intern_each, strs_bytes};
use crate::text::name_handle;
use vstd::string::StringSliceAdditionalSpecFns;
use crate::effects::Fo76Fo4Hook;
use crate::model::{code, code_in, entries_view, sig_is, tag, EntryView, FieldEntry, FieldValue, FieldView,
    Record, RecordView, SubrecordSig, Sym};
use crate::fields::{first_where, first_with_sig, lemma_first_where, lemma_first_where_bounds,
    lemma_first_with_sig};
use crate::bytes::{le32, read_u32_le, splice, u32_bytes, write_u32_le};
use crate::normalize::map_fields;
use crate::retain::map_entries;
use crate::fields::{find_sig, has_sig, push_entry, append_entries};
use vstd::pervasive::VecAdditionalExecFns;
use crate::text::{bytes_eq, handle_of, interned, lemma_handle_of, lit, trim_nul, trim_nul_suffix,
    utf8_valid, StringInterner};

verus! {

/// The FO4 procedure a FO76 procedure tree names, by its short or long
/// spelling.
pub open spec fn fo4_procedure_name(t: Seq<u8>) -> Option<Seq<u8>> {
    if t == "Trav".spec_bytes() || t == "Travel".spec_bytes() {
        Some("Travel".spec_bytes())
    } else if t == "Sand".spec_bytes() || t == "Sandbox".spec_bytes() {
        Some("Sandbox".spec_bytes())
    } else if t == "Foll".spec_bytes() || t == "Follow".spec_bytes() {
        Some("Follow".spec_bytes())
    } else if t == "Wait".spec_bytes() {
        Some("Wait".spec_bytes())
    } else if t == "Patr".spec_bytes() || t == "Patrol".spec_bytes() {
        Some("Patrol".spec_bytes())
    } else if t == "Sit".spec_bytes() {
        Some("Sit".spec_bytes())
    } else if t == "UseW".spec_bytes() || t == "UseWeapon".spec_bytes() {
        Some("UseWeapon".spec_bytes())
    } else if t == "Rang".spec_bytes() || t == "Range".spec_bytes() {
        Some("Range".spec_bytes())
    } else if t == "Unlo".spec_bytes() || t == "UnlockDoors".spec_bytes() {
        Some("UnlockDoors".spec_bytes())
    } else if t == "Acti".spec_bytes() || t == "Activate".spec_bytes() {
        Some("Activate".spec_bytes())
    } else if t == "Find".spec_bytes() {
        Some("Find".spec_bytes())
    } else if t == "Esco".spec_bytes() || t == "Escort".spec_bytes() {
        Some("Escort".spec_bytes())
    } else if t == "Hold".spec_bytes() || t == "HoldPosition".spec_bytes() {
        Some("HoldPosition".spec_bytes())
    } else if t == "Slee".spec_bytes() || t == "Sleep".spec_bytes() {
        Some("Sleep".spec_bytes())
    } else if t == "Guar".spec_bytes() || t == "Guard".spec_bytes() {
        Some("Guard".spec_bytes())
    } else if t == "Eat".spec_bytes() {
        Some("Eat".spec_bytes())
    } else if t == "Say".spec_bytes() || t == "ForceGreet".spec_bytes() {
        Some("ForceGreet".spec_bytes())
    } else if t == "Flee".spec_bytes() {
        Some("Flee".spec_bytes())
    } else if t == "Head".spec_bytes() || t == "Headtrack".spec_bytes() {
        Some("Headtrack".spec_bytes())
    } else if t == "Orbi".spec_bytes() || t == "Orbit".spec_bytes() {
        Some("Orbit".spec_bytes())
    } else if t == "UseI".spec_bytes() || t == "UseIdleMarker".spec_bytes() {
        Some("UseIdleMarker".spec_bytes())
    } else if t == "GuardArea".spec_bytes() {
        Some("GuardArea".spec_bytes())
    } else if t == "Hover".spec_bytes() {
        Some("Hover".spec_bytes())
    } else if t == "KeepAnEyeOn".spec_bytes() {
        Some("KeepAnEyeOn".spec_bytes())
    } else if t == "LockDoors".spec_bytes() {
        Some("LockDoors".spec_bytes())
    } else if t == "UseMagic".spec_bytes() {
        Some("UseMagic".spec_bytes())
    } else if t == "Acquire".spec_bytes() {
        Some("Acquire".spec_bytes())
    } else if t == "FollowTo".spec_bytes() {
        Some("FollowTo".spec_bytes())
    } else {
        None
    }
}

#[verifier::rlimit(60)]
#[verifier::spinoff_prover]
fn fo4_procedure_name_exec(t: &[u8]) -> (r: Option<&'static str>)
    ensures
        r is Some <==> fo4_procedure_name(t@) is Some,
        r matches Some(n) ==> fo4_procedure_name(t@) == Some(n.spec_bytes()),
        r matches Some(n) ==> pack_names().contains(n.spec_bytes()),
{
    if bytes_eq(t, lit("Trav")) || bytes_eq(t, lit("Travel")) {
        assert(pack_names()[2] == "Travel".spec_bytes());
        Some("Travel")
    } else if bytes_eq(t, lit("Sand")) || bytes_eq(t, lit("Sandbox")) {
        assert(pack_names()[3] == "Sandbox".spec_bytes());
        Some("Sandbox")
    } else if bytes_eq(t, lit("Foll")) || bytes_eq(t, lit("Follow")) {
        assert(pack_names()[4] == "Follow".spec_bytes());
        Some("Follow")
    } else if bytes_eq(t, lit("Wait")) {
        assert(pack_names()[5] == "Wait".spec_bytes());
        Some("Wait")
    } else if bytes_eq(t, lit("Patr")) || bytes_eq(t, lit("Patrol")) {
        assert(pack_names()[6] == "Patrol".spec_bytes());
        Some("Patrol")
    } else if bytes_eq(t, lit("Sit")) {
        assert(pack_names()[7] == "Sit".spec_bytes());
        Some("Sit")
    } else if bytes_eq(t, lit("UseW")) || bytes_eq(t, lit("UseWeapon")) {
        assert(pack_names()[8] == "UseWeapon".spec_bytes());
        Some("UseWeapon")
    } else if bytes_eq(t, lit("Rang")) || bytes_eq(t, lit("Range")) {
        assert(pack_names()[9] == "Range".spec_bytes());
        Some("Range")
    } else if bytes_eq(t, lit("Unlo")) || bytes_eq(t, lit("UnlockDoors")) {
        assert(pack_names()[10] == "UnlockDoors".spec_bytes());
        Some("UnlockDoors")
    } else if bytes_eq(t, lit("Acti")) || bytes_eq(t, lit("Activate")) {
        assert(pack_names()[11] == "Activate".spec_bytes());
        Some("Activate")
    } else if bytes_eq(t, lit("Find")) {
        assert(pack_names()[12] == "Find".spec_bytes());
        Some("Find")
    } else if bytes_eq(t, lit("Esco")) || bytes_eq(t, lit("Escort")) {
        assert(pack_names()[13] == "Escort".spec_bytes());
        Some("Escort")
    } else if bytes_eq(t, lit("Hold")) || bytes_eq(t, lit("HoldPosition")) {
        assert(pack_names()[14] == "HoldPosition".spec_bytes());
        Some("HoldPosition")
    } else if bytes_eq(t, lit("Slee")) || bytes_eq(t, lit("Sleep")) {
        assert(pack_names()[15] == "Sleep".spec_bytes());
        Some("Sleep")
    } else if bytes_eq(t, lit("Guar")) || bytes_eq(t, lit("Guard")) {
        assert(pack_names()[16] == "Guard".spec_bytes());
        Some("Guard")
    } else if bytes_eq(t, lit("Eat")) {
        assert(pack_names()[17] == "Eat".spec_bytes());
        Some("Eat")
    } else if bytes_eq(t, lit("Say")) || bytes_eq(t, lit("ForceGreet")) {
        assert(pack_names()[18] == "ForceGreet".spec_bytes());
        Some("ForceGreet")
    } else if bytes_eq(t, lit("Flee")) {
        assert(pack_names()[19] == "Flee".spec_bytes());
        Some("Flee")
    } else if bytes_eq(t, lit("Head")) || bytes_eq(t, lit("Headtrack")) {
        assert(pack_names()[20] == "Headtrack".spec_bytes());
        Some("Headtrack")
    } else if bytes_eq(t, lit("Orbi")) || bytes_eq(t, lit("Orbit")) {
        assert(pack_names()[21] == "Orbit".spec_bytes());
        Some("Orbit")
    } else if bytes_eq(t, lit("UseI")) || bytes_eq(t, lit("UseIdleMarker")) {
        assert(pack_names()[22] == "UseIdleMarker".spec_bytes());
        Some("UseIdleMarker")
    } else if bytes_eq(t, lit("GuardArea")) {
        assert(pack_names()[23] == "GuardArea".spec_bytes());
        Some("GuardArea")
    } else if bytes_eq(t, lit("Hover")) {
        assert(pack_names()[24] == "Hover".spec_bytes());
        Some("Hover")
    } else if bytes_eq(t, lit("KeepAnEyeOn")) {
        assert(pack_names()[25] == "KeepAnEyeOn".spec_bytes());
        Some("KeepAnEyeOn")
    } else if bytes_eq(t, lit("LockDoors")) {
        assert(pack_names()[26] == "LockDoors".spec_bytes());
        Some("LockDoors")
    } else if bytes_eq(t, lit("UseMagic")) {
        assert(pack_names()[27] == "UseMagic".spec_bytes());
        Some("UseMagic")
    } else if bytes_eq(t, lit("Acquire")) {
        assert(pack_names()[28] == "Acquire".spec_bytes());
        Some("Acquire")
    } else if bytes_eq(t, lit("FollowTo")) {
        assert(pack_names()[29] == "FollowTo".spec_bytes());
        Some("FollowTo")
    } else {
        None
    }
}

/// The names the procedure-tree rewrite writes: `Sequence`, `Procedure` and
/// every FO4 procedure name.
pub open spec fn pack_names() -> Seq<Seq<u8>> {
    seq![
        "Sequence".spec_bytes(),
        "Procedure".spec_bytes(),
        "Travel".spec_bytes(),
        "Sandbox".spec_bytes(),
        "Follow".spec_bytes(),
        "Wait".spec_bytes(),
        "Patrol".spec_bytes(),
        "Sit".spec_bytes(),
        "UseWeapon".spec_bytes(),
        "Range".spec_bytes(),
        "UnlockDoors".spec_bytes(),
        "Activate".spec_bytes(),
        "Find".spec_bytes(),
        "Escort".spec_bytes(),
        "HoldPosition".spec_bytes(),
        "Sleep".spec_bytes(),
        "Guard".spec_bytes(),
        "Eat".spec_bytes(),
        "ForceGreet".spec_bytes(),
        "Flee".spec_bytes(),
        "Headtrack".spec_bytes(),
        "Orbit".spec_bytes(),
        "UseIdleMarker".spec_bytes(),
        "GuardArea".spec_bytes(),
        "Hover".spec_bytes(),
        "KeepAnEyeOn".spec_bytes(),
        "LockDoors".spec_bytes(),
        "UseMagic".spec_bytes(),
        "Acquire".spec_bytes(),
        "FollowTo".spec_bytes(),
    ]
}

pub(crate) fn pack_name_list() -> (r: Vec<&'static str>)
    ensures
        r@.len() == pack_names().len(),
        forall|i: int| 0 <= i < r@.len() ==> #[trigger] r@[i].spec_bytes() == pack_names()[i],
{
    let r: Vec<&'static str> = vec![
        "Sequence",
        "Procedure",
        "Travel",
        "Sandbox",
        "Follow",
        "Wait",
        "Patrol",
        "Sit",
        "UseWeapon",
        "Range",
        "UnlockDoors",
        "Activate",
        "Find",
        "Escort",
        "HoldPosition",
        "Sleep",
        "Guard",
        "Eat",
        "ForceGreet",
        "Flee",
        "Headtrack",
        "Orbit",
        "UseIdleMarker",
        "GuardArea",
        "Hover",
        "KeepAnEyeOn",
        "LockDoors",
        "UseMagic",
        "Acquire",
        "FollowTo",
    ];
    assert(r@.len() == pack_names().len());
    r
}

/// The text of a procedure-tree entry: a byte string without its trailing
/// NULs when that is UTF-8, or a resolved symbol.
pub open spec fn pack_tree_text(interner: StringInterner, v: FieldView) -> Option<Seq<u8>> {
    match v {
        FieldView::Bytes(b) => if vstd::utf8::valid_utf8(trim_nul(b)) {
            Some(trim_nul(b))
        } else {
            None
        },
        FieldView::String(sym) => interner.spec_resolve(sym),
        _ => None,
    }
}

/// The raw text of a procedure name: a byte string without its trailing
/// NULs, or a resolved symbol.
pub open spec fn procedure_text(interner: StringInterner, v: FieldView) -> Option<Seq<u8>> {
    match v {
        FieldView::Bytes(b) => Some(trim_nul(b)),
        FieldView::String(sym) => interner.spec_resolve(sym),
        _ => None,
    }
}

/// The FO4 procedure a `PNAM` entry names, if any.
pub open spec fn mapped_procedure(interner: StringInterner, v: FieldView) -> Option<Seq<u8>> {
    match procedure_text(interner, v) {
        Some(t) => fo4_procedure_name(t),
        None => None,
    }
}

/// The entry with its value replaced by the interned string `name`.
pub open spec fn text_entry(e: EntryView, held: Seq<Seq<u8>>, name: Seq<u8>) -> EntryView {
    EntryView { value: FieldView::String(handle_of(held, name)), ..e }
}

/// Entries that belong to the procedure once one has started.
pub open spec fn procedure_member_sig(s: [u8; 4]) -> bool {
    s == code('F', 'N', 'A', 'M') || s == code('P', 'K', 'C', '2') || s == code('P', 'F', 'O', '2')
        || s == code('P', 'F', 'O', 'R')
}

/// How the entries of a branch group (after its `ANAM`) are sorted.
pub struct TreeParts {
    pub prefix: Seq<EntryView>,
    pub root: Seq<EntryView>,
    pub procedure: Seq<EntryView>,
    pub trailing: Seq<EntryView>,
    pub started: bool,
    pub ignored: bool,
}

/// Sorting one entry: `PRCB` roots; a `PNAM` with an FO4 name starts the
/// procedure (renamed), one without is ignored; procedure members follow a
/// started procedure; a `PKC2` after an ignored procedure trails; anything
/// else is prefix.
pub open spec fn tree_parts_step(interner: StringInterner, held: Seq<Seq<u8>>, p: TreeParts, e: EntryView) -> TreeParts {
    if e.sig == code('P', 'R', 'C', 'B') {
        TreeParts { root: p.root.push(e), ..p }
    } else if e.sig == code('P', 'N', 'A', 'M') {
        match mapped_procedure(interner, e.value) {
            Some(name) => TreeParts {
                procedure: p.procedure.push(text_entry(e, held, name)),
                started: true,
                ..p
            },
            None => TreeParts { ignored: true, ..p },
        }
    } else if p.started && procedure_member_sig(e.sig) {
        TreeParts { procedure: p.procedure.push(e), ..p }
    } else if p.ignored && e.sig == code('P', 'K', 'C', '2') {
        TreeParts { trailing: p.trailing.push(e), ..p }
    } else {
        TreeParts { prefix: p.prefix.push(e), ..p }
    }
}

/// The sorting of a sequence of group entries.
pub open spec fn tree_parts(interner: StringInterner, held: Seq<Seq<u8>>, items: Seq<EntryView>) -> TreeParts
    decreases items.len(),
{
    if items.len() == 0 {
        TreeParts {
            prefix: Seq::empty(),
            root: Seq::empty(),
            procedure: Seq::empty(),
            trailing: Seq::empty(),
            started: false,
            ignored: false,
        }
    } else {
        tree_parts_step(interner, held, tree_parts(interner, held, items.drop_last()), items.last())
    }
}

/// The branch header that opens a synthesized procedure branch.
pub open spec fn procedure_branch(held: Seq<Seq<u8>>) -> EntryView {
    EntryView {
        sig: code('A', 'N', 'A', 'M'),
        value: FieldView::String(handle_of(held, "Procedure".spec_bytes())),
    }
}

/// The zero condition count of a synthesized procedure branch.
pub open spec fn zero_citc() -> EntryView {
    EntryView { sig: code('C', 'I', 'T', 'C'), value: FieldView::Uint(0) }
}

/// A branch group rewritten, with the roots carried from earlier
/// `Procedure` branches; gives the group's output and the carry after it.
/// A group whose header has no text is copied. A `Procedure` branch keeps
/// its header, prefix, procedure and trailing entries (only the trailing
/// ones when it has no FO4 procedure) and carries its roots on. Any other
/// branch (`Fallback` renamed `Sequence`) takes the carried roots in place
/// of its own, and a procedure of its own gets a `Procedure` branch.
pub open spec fn group_rewrite(
    interner: StringInterner,
    held: Seq<Seq<u8>>,
    group: Seq<EntryView>,
    carry: Seq<EntryView>,
) -> (Seq<EntryView>, Seq<EntryView>) {
    match pack_tree_text(interner, group[0].value) {
        None => (group, carry),
        Some(t) => {
            let branch = if t == "Fallback".spec_bytes() {
                text_entry(group[0], held, "Sequence".spec_bytes())
            } else {
                group[0]
            };
            let p = tree_parts(interner, held, group.drop_first());
            if t == "Procedure".spec_bytes() {
                if p.procedure.len() == 0 {
                    (p.trailing, carry + p.root)
                } else {
                    (seq![branch] + p.prefix + p.procedure + p.trailing, carry + p.root)
                }
            } else {
                let roots = if carry.len() > 0 { carry } else { p.root };
                let procedure = if p.procedure.len() > 0 {
                    seq![procedure_branch(held), zero_citc()] + p.procedure
                } else {
                    Seq::empty()
                };
                (seq![branch] + p.prefix + roots + procedure + p.trailing, Seq::empty())
            }
        },
    }
}

/// Where the branch group opened by `entries[0]` ends: at the next `ANAM`.
pub open spec fn group_end(entries: Seq<EntryView>) -> int {
    match first_with_sig(entries.drop_first(), code('A', 'N', 'A', 'M')) {
        Some(j) => j + 1,
        None => entries.len() as int,
    }
}

pub proof fn lemma_group_end(entries: Seq<EntryView>)
    requires
        entries.len() > 0,
    ensures
        1 <= group_end(entries) <= entries.len(),
{
    lemma_first_where_bounds(entries.drop_first(), |e: EntryView| e.sig == code('A', 'N', 'A', 'M'));
}

/// A procedure tree rewritten group by group, the carried roots appended
/// at the end.
pub open spec fn tree_rewrite(
    interner: StringInterner,
    held: Seq<Seq<u8>>,
    entries: Seq<EntryView>,
    carry: Seq<EntryView>,
) -> Seq<EntryView>
    decreases entries.len(),
{
    if entries.len() == 0 {
        carry
    } else if entries[0].sig != code('A', 'N', 'A', 'M') {
        seq![entries[0]] + tree_rewrite(interner, held, entries.drop_first(), carry)
    } else {
        let g = group_end(entries);
        proof {
            lemma_group_end(entries);
        }
        let r = group_rewrite(interner, held, entries.take(g), carry);
        r.0 + tree_rewrite(interner, held, entries.skip(g), r.1)
    }
}

/// Whether the interner holds every name the rewrite writes.
pub open spec fn holds_pack_names(held: Seq<Seq<u8>>) -> bool {
    forall|i: int| 0 <= i < pack_names().len() ==> held.contains(#[trigger] pack_names()[i])
}


fn procedure_entry_text(interner: &StringInterner, entry: &FieldEntry) -> (r: Option<Vec<u8>>)
    ensures
        r is None <==> procedure_text(*interner, entry.value@) is None,
        r matches Some(t) ==> procedure_text(*interner, entry.value@) == Some(t@),
{
    match &entry.value {
        FieldValue::Bytes(bytes) => Some(trim_nul_suffix(bytes.as_slice())),
        FieldValue::String(sym) => match interner.resolve(*sym) {
            Some(s) => Some(crate::model::copy_bytes(s)),
            None => None,
        },
        _ => None,
    }
}

/// Build an entry holding an interned string.
fn string_entry(interner: &StringInterner, sig: [u8; 4], value: &str) -> (r: FieldEntry)
    requires
        interner.wf(),
        interner@.contains(value.spec_bytes()),
    ensures
        r@ == (EntryView { sig: sig, value: FieldView::String(handle_of(interner@, value.spec_bytes())) }),
{
    FieldEntry { sig: SubrecordSig(sig), value: FieldValue::String(name_handle(interner, value)) }
}

impl Fo76Fo4Hook {
    /// The text of a procedure-tree entry, if it has one.
    pub fn pack_tree_entry_text(interner: &StringInterner, entry: &FieldEntry) -> (r: Option<Vec<u8>>)
        ensures
            r is None <==> pack_tree_text(*interner, entry.value@) is None,
            r matches Some(t) ==> pack_tree_text(*interner, entry.value@) == Some(t@),
    {
        match &entry.value {
            FieldValue::Bytes(bytes) => {
                let value = trim_nul_suffix(bytes.as_slice());
                if utf8_valid(value.as_slice()) {
                    Some(value)
                } else {
                    None
                }
            },
            FieldValue::String(sym) => match interner.resolve(*sym) {
                Some(s) => Some(crate::model::copy_bytes(s)),
                None => None,
            },
            _ => None,
        }
    }

    /// The FO4 procedure a `PNAM` entry names, if any.
    pub fn fo76_pack_procedure_name(interner: &StringInterner, entry: &FieldEntry) -> (r: Option<&'static str>)
        ensures
            r is None <==> mapped_procedure(*interner, entry.value@) is None,
            r matches Some(n) ==> mapped_procedure(*interner, entry.value@) == Some(n.spec_bytes()),
            r matches Some(n) ==> pack_names().contains(n.spec_bytes()),
    {
        match procedure_entry_text(interner, entry) {
            Some(t) => fo4_procedure_name_exec(t.as_slice()),
            None => None,
        }
    }

    /// Replace an entry's value by an interned string the interner holds.
    /// The names it writes are interned first.
    pub fn set_pack_tree_text_value(interner: &mut StringInterner, entry: &mut FieldEntry, value: &str)
        requires
            old(interner).wf(),
            old(interner)@.len() + 1 <= u32::MAX,
        ensures
            final(interner).wf(),
            final(interner)@ == intern_all(old(interner)@, seq![value.spec_bytes()]),
            final(entry)@ == text_entry(old(entry)@, final(interner)@, value.spec_bytes()),
    {
        let names: Vec<&str> = vec![value];
        intern_each(interner, names.as_slice());
        proof {
            assert(strs_bytes(names@) =~= seq![value.spec_bytes()]);
            assert(interner@.contains(strs_bytes(names@)[0]));
        }
        Self::set_pack_tree_text_value_interned(interner, entry, value)
    }

    /// Replace an entry's value by an interned string the interner holds.
    pub(crate) fn set_pack_tree_text_value_interned(interner: &StringInterner, entry: &mut FieldEntry, value: &str)
        requires
            interner.wf(),
            interner@.contains(value.spec_bytes()),
        ensures
            final(entry)@ == text_entry(old(entry)@, interner@, value.spec_bytes()),
    {
        entry.value = FieldValue::String(name_handle(interner, value));
    }

    /// A procedure-tree entry holding an interned string.
    /// The names it writes are interned first.
    pub fn pack_tree_text_entry(interner: &mut StringInterner, sig: [u8; 4], value: &str) -> (r: FieldEntry)
        requires
            old(interner).wf(),
            old(interner)@.len() + 1 <= u32::MAX,
        ensures
            final(interner).wf(),
            final(interner)@ == intern_all(old(interner)@, seq![value.spec_bytes()]),
            r@ == (EntryView { sig: sig, value: FieldView::String(handle_of(final(interner)@, value.spec_bytes())) }),
    {
        let names: Vec<&str> = vec![value];
        intern_each(interner, names.as_slice());
        proof {
            assert(strs_bytes(names@) =~= seq![value.spec_bytes()]);
            assert(interner@.contains(strs_bytes(names@)[0]));
        }
        Self::pack_tree_text_entry_interned(interner, sig, value)
    }

    /// A procedure-tree entry holding an interned string.
    pub(crate) fn pack_tree_text_entry_interned(interner: &StringInterner, sig: [u8; 4], value: &str) -> (r: FieldEntry)
        requires
            interner.wf(),
            interner@.contains(value.spec_bytes()),
        ensures
            r@ == (EntryView { sig: sig, value: FieldView::String(handle_of(interner@, value.spec_bytes())) }),
    {
        string_entry(interner, sig, value)
    }

    /// A procedure-tree entry holding an unsigned integer.
    pub fn pack_tree_u32_entry(sig: [u8; 4], value: u32) -> (r: FieldEntry)
        ensures
            r@ == (EntryView { sig: sig, value: FieldView::Uint(value as u64) }),
    {
        FieldEntry { sig: SubrecordSig(sig), value: FieldValue::Uint(value as u64) }
    }

    /// Rename a `Fallback` branch header to `Sequence`.
    /// The names it writes are interned first.
    pub fn map_pack_tree_branch_type_value(interner: &mut StringInterner, entry: &mut FieldEntry)
        requires
            old(interner).wf(),
            old(interner)@.len() + 1 <= u32::MAX,
        ensures
            final(interner).wf(),
            final(interner)@ == intern_all(old(interner)@, seq!["Sequence".spec_bytes()]),
            final(entry)@ == if pack_tree_text(*final(interner), old(entry)@.value) == Some("Fallback".spec_bytes()) {
                text_entry(old(entry)@, final(interner)@, "Sequence".spec_bytes())
            } else {
                old(entry)@
            },
    {
        let names: Vec<&str> = vec!["Sequence"];
        intern_each(interner, names.as_slice());
        proof {
            assert(strs_bytes(names@) =~= seq!["Sequence".spec_bytes()]);
            assert(interner@.contains(strs_bytes(names@)[0]));
        }
        Self::map_pack_tree_branch_type_value_interned(interner, entry)
    }

    /// Rename a `Fallback` branch header to `Sequence`.
    pub(crate) fn map_pack_tree_branch_type_value_interned(interner: &StringInterner, entry: &mut FieldEntry)
        requires
            interner.wf(),
            interner@.contains("Sequence".spec_bytes()),
        ensures
            final(entry)@ == if pack_tree_text(*interner, old(entry)@.value) == Some("Fallback".spec_bytes()) {
                text_entry(old(entry)@, interner@, "Sequence".spec_bytes())
            } else {
                old(entry)@
            },
    {
        let Some(value) = Self::pack_tree_entry_text(interner, entry) else {
            return;
        };
        if bytes_eq(value.as_slice(), lit("Fallback")) {
            Self::set_pack_tree_text_value_interned(interner, entry, "Sequence");
        }
    }
}


impl Fo76Fo4Hook {
    /// Rewrite the entries of a procedure tree group by group.
    /// The names it writes are interned first.
    pub fn rewrite_pack_procedure_tree_entries(interner: &mut StringInterner, entries: &[FieldEntry]) -> (r: Vec<FieldEntry>)
        requires
            old(interner).wf(),
            old(interner)@.len() + pack_names().len() <= u32::MAX,
        ensures
            final(interner).wf(),
            final(interner)@ == intern_all(old(interner)@, pack_names()),
            entries_view(r@) == tree_rewrite(*final(interner), final(interner)@, entries_view(entries@), Seq::empty()),
    {
        let names = pack_name_list();
        intern_each(interner, names.as_slice());
        proof {
            assert(strs_bytes(names@) =~= pack_names());
            assert forall|k: int| 0 <= k < pack_names().len() implies interner@.contains(#[trigger] pack_names()[k]) by {
                assert(strs_bytes(names@)[k] == pack_names()[k]);
                }
        }
        Self::rewrite_pack_procedure_tree_entries_interned(interner, entries)
    }

    /// Rewrite the entries of a procedure tree group by group.
    #[verifier::rlimit(100)]
    #[verifier::spinoff_prover]
    pub(crate) fn rewrite_pack_procedure_tree_entries_interned(interner: &StringInterner, entries: &[FieldEntry]) -> (r: Vec<FieldEntry>)
        requires
            interner.wf(),
            holds_pack_names(interner@),
        ensures
            entries_view(r@) == tree_rewrite(*interner, interner@, entries_view(entries@), Seq::empty()),
    {
        let ghost held = interner@;
        let ghost ev = entries_view(entries@);
        assert(held.contains(pack_names()[0]));
        assert(held.contains(pack_names()[1]));
        let n = entries.len();
        let mut out: Vec<FieldEntry> = Vec::new();
        let mut carry: Vec<FieldEntry> = Vec::new();
        let mut gs: usize = 0;
        assert(ev.skip(0) =~= ev);
        assert(entries_view(out@) =~= Seq::<EntryView>::empty());
        assert(entries_view(carry@) =~= Seq::<EntryView>::empty());
        assert(Seq::<EntryView>::empty() + tree_rewrite(*interner, held, ev, Seq::empty())
            =~= tree_rewrite(*interner, held, ev, Seq::empty()));
        while gs < n
            invariant
                n == entries@.len(),
                ev == entries_view(entries@),
                held == interner@,
                interner.wf(),
                holds_pack_names(held),
                held.contains("Sequence".spec_bytes()),
                held.contains("Procedure".spec_bytes()),
                gs <= n,
                entries_view(out@) + tree_rewrite(*interner, held, ev.skip(gs as int), entries_view(carry@))
                    == tree_rewrite(*interner, held, ev, Seq::empty()),
            decreases n - gs,
        {
            let ghost rest = ev.skip(gs as int);
            let ghost c0 = entries_view(carry@);
            let ghost o0 = entries_view(out@);
            assert(rest[0] == ev[gs as int]);
            assert(ev[gs as int] == entries@[gs as int]@);
            if !sig_is(entries[gs].sig.0, 'A', 'N', 'A', 'M') {
                push_entry(&mut out, entries[gs].duplicate());
                proof {
                    assert(rest.drop_first() =~= ev.skip(gs + 1));
                    assert(o0.push(ev[gs as int]) + tree_rewrite(*interner, held, ev.skip(gs + 1), c0)
                        =~= o0 + (seq![rest[0]] + tree_rewrite(*interner, held, rest.drop_first(), c0)));
                }
                gs = gs + 1;
                continue;
            }
            let mut ge: usize = gs + 1;
            while ge < n && !sig_is(entries[ge].sig.0, 'A', 'N', 'A', 'M')
                invariant
                    n == entries@.len(),
                    ev == entries_view(entries@),
                    gs < ge <= n,
                    forall|k: int| gs < k < ge ==> #[trigger] ev[k].sig != code('A', 'N', 'A', 'M'),
                decreases n - ge,
            {
                assert(ev[ge as int] == entries@[ge as int]@);
                ge = ge + 1;
            }
            proof {
                if ge < n {
                    assert(ev[ge as int] == entries@[ge as int]@);
                }
                let tail = rest.drop_first();
                assert forall|k: int| 0 <= k < ge - gs - 1 implies tail[k].sig != code('A', 'N', 'A', 'M') by {
                    assert(tail[k] == ev[gs + 1 + k]);
                }
                if ge < n {
                    assert(tail[ge - gs - 1] == ev[ge as int]);
                }
                lemma_first_with_sig(tail, code('A', 'N', 'A', 'M'), ge - gs - 1);
                assert(group_end(rest) == ge - gs);
            }
            let ghost group = ev.subrange(gs as int, ge as int);
            assert(rest.take(ge - gs) =~= group);
            assert(rest.skip(ge - gs) =~= ev.skip(ge as int));
            assert(group[0] == entries@[gs as int]@);
            let text = Self::pack_tree_entry_text(interner, &entries[gs]);
            match text {
                None => {
                    let mut k: usize = gs;
                    while k < ge
                        invariant
                            n == entries@.len(),
                            ev == entries_view(entries@),
                            gs <= k <= ge <= n,
                            entries_view(out@) == o0 + ev.subrange(gs as int, k as int),
                        decreases ge - k,
                    {
                        push_entry(&mut out, entries[k].duplicate());
                        assert(ev.subrange(gs as int, k + 1) =~= ev.subrange(gs as int, k as int).push(ev[k as int]));
                        k = k + 1;
                    }
                    proof {
                        assert(group_rewrite(*interner, held, group, c0) == (group, c0));
                    }
                },
                Some(text) => {
                    let is_procedure = bytes_eq(text.as_slice(), lit("Procedure"));
                    let mut branch = entries[gs].duplicate();
                    Self::map_pack_tree_branch_type_value_interned(interner, &mut branch);
                    let mut prefix: Vec<FieldEntry> = Vec::new();
                    let mut root: Vec<FieldEntry> = Vec::new();
                    let mut procedure: Vec<FieldEntry> = Vec::new();
                    let mut trailing: Vec<FieldEntry> = Vec::new();
                    let mut started = false;
                    let mut ignored = false;
                    let mut k: usize = gs + 1;
                    assert(ev.subrange(gs + 1, gs + 1) =~= Seq::<EntryView>::empty());
                    while k < ge
                        invariant
                            n == entries@.len(),
                            ev == entries_view(entries@),
                            held == interner@,
                            interner.wf(),
                            holds_pack_names(held),
                            gs < k <= ge <= n,
                            ({
                                let p = tree_parts(*interner, held, ev.subrange(gs + 1, k as int));
                                &&& entries_view(prefix@) == p.prefix
                                &&& entries_view(root@) == p.root
                                &&& entries_view(procedure@) == p.procedure
                                &&& entries_view(trailing@) == p.trailing
                                &&& started == p.started
                                &&& ignored == p.ignored
                            }),
                        decreases ge - k,
                    {
                        let ghost items = ev.subrange(gs + 1, k + 1);
                        assert(items.drop_last() =~= ev.subrange(gs + 1, k as int));
                        assert(items.last() == ev[k as int]);
                        assert(ev[k as int] == entries@[k as int]@);
                        let s = entries[k].sig.0;
                        if sig_is(s, 'P', 'R', 'C', 'B') {
                            push_entry(&mut root, entries[k].duplicate());
                        } else if sig_is(s, 'P', 'N', 'A', 'M') {
                            match Self::fo76_pack_procedure_name(interner, &entries[k]) {
                                Some(name) => {
                                    proof {
                                        let w = choose|w: int| 0 <= w < pack_names().len() && pack_names()[w] == name.spec_bytes();
                                        assert(held.contains(pack_names()[w]));
                                    }
                                    let mut mapped = entries[k].duplicate();
                                    Self::set_pack_tree_text_value_interned(interner, &mut mapped, name);
                                    push_entry(&mut procedure, mapped);
                                    started = true;
                                },
                                None => {
                                    ignored = true;
                                },
                            }
                        } else if started && (sig_is(s, 'F', 'N', 'A', 'M') || sig_is(s, 'P', 'K', 'C', '2')
                            || sig_is(s, 'P', 'F', 'O', '2') || sig_is(s, 'P', 'F', 'O', 'R')) {
                            push_entry(&mut procedure, entries[k].duplicate());
                        } else if ignored && sig_is(s, 'P', 'K', 'C', '2') {
                            push_entry(&mut trailing, entries[k].duplicate());
                        } else {
                            push_entry(&mut prefix, entries[k].duplicate());
                        }
                        k = k + 1;
                    }
                    assert(ev.subrange(gs + 1, ge as int) =~= group.drop_first());
                    if is_procedure {
                        if procedure.len() == 0 {
                            append_entries(&mut out, &mut trailing);
                            append_entries(&mut carry, &mut root);
                        } else {
                            push_entry(&mut out, branch);
                            append_entries(&mut out, &mut prefix);
                            append_entries(&mut out, &mut procedure);
                            append_entries(&mut out, &mut trailing);
                            append_entries(&mut carry, &mut root);
                        }
                    } else {
                        push_entry(&mut out, branch);
                        append_entries(&mut out, &mut prefix);
                        if carry.len() > 0 {
                            append_entries(&mut out, &mut carry);
                        } else {
                            append_entries(&mut out, &mut root);
                        }
                        if procedure.len() > 0 {
                            push_entry(&mut out, Self::pack_tree_text_entry_interned(interner, tag('A', 'N', 'A', 'M'), "Procedure"));
                            push_entry(&mut out, Self::pack_tree_u32_entry(tag('C', 'I', 'T', 'C'), 0));
                            append_entries(&mut out, &mut procedure);
                        }
                        append_entries(&mut out, &mut trailing);
                        proof {
                            assert(entries_view(carry@) =~= Seq::<EntryView>::empty());
                        }
                    }
                },
            }
            proof {
                let g = group_rewrite(*interner, held, group, c0);
                assert(entries_view(out@) =~= o0 + g.0);
                assert(entries_view(carry@) == g.1);
                assert(tree_rewrite(*interner, held, rest, c0) == g.0 + tree_rewrite(*interner, held, ev.skip(ge as int), g.1));
                assert(o0 + g.0 + tree_rewrite(*interner, held, ev.skip(ge as int), g.1)
                    =~= o0 + (g.0 + tree_rewrite(*interner, held, ev.skip(ge as int), g.1)));
            }
            gs = ge;
        }
        append_entries(&mut out, &mut carry);
        proof {
            assert(ev.skip(n as int) =~= Seq::<EntryView>::empty());
        }
        out
    }
}


/// Codes that end a PACK procedure tree.
pub open spec fn tree_boundary_sig(s: [u8; 4]) -> bool {
    s == code('U', 'N', 'A', 'M') || s == code('B', 'N', 'A', 'M') || s == code('P', 'O', 'B', 'A')
        || s == code('P', 'O', 'E', 'A') || s == code('P', 'O', 'C', 'A')
}

/// Where a PACK's procedure tree lies: from just after its first `XNAM` up
/// to the first boundary entry (or the end); `None` when it is empty.
pub open spec fn procedure_tree_bounds(r: RecordView) -> Option<(int, int)> {
    match first_with_sig(r.fields, code('X', 'N', 'A', 'M')) {
        None => None,
        Some(x) => {
            let ts = x + 1;
            let te = match first_where(r.fields.skip(ts), |e: EntryView| tree_boundary_sig(e.sig)) {
                Some(o) => ts + o,
                None => r.fields.len() as int,
            };
            if ts < te {
                Some((ts, te))
            } else {
                None
            }
        },
    }
}

/// The PACK with its procedure tree rewritten against the interner `i`.
pub open spec fn procedure_tree_normalized(i: StringInterner, r: RecordView, ts: int, te: int) -> RecordView {
    RecordView {
        fields: r.fields.take(ts) + tree_rewrite(i, i@, r.fields.subrange(ts, te), Seq::empty())
            + r.fields.skip(te),
        ..r
    }
}

fn is_tree_boundary(s: [u8; 4]) -> (r: bool)
    ensures
        r == tree_boundary_sig(s),
{
    sig_is(s, 'U', 'N', 'A', 'M') || sig_is(s, 'B', 'N', 'A', 'M') || sig_is(s, 'P', 'O', 'B', 'A')
        || sig_is(s, 'P', 'O', 'E', 'A') || sig_is(s, 'P', 'O', 'C', 'A')
}

/// The bytes without one trailing NUL, when they end with one.
pub open spec fn strip_one_nul(b: Seq<u8>) -> Seq<u8> {
    if b.len() > 0 && b.last() == 0 {
        b.drop_last()
    } else {
        b
    }
}

/// Whether a package-data value names the `Fallback` procedure.
pub open spec fn names_fallback(interner: StringInterner, v: FieldView) -> bool {
    match v {
        FieldView::Bytes(b) => strip_one_nul(b) == "Fallback".spec_bytes(),
        FieldView::String(sym) => interner.spec_resolve(sym) == Some("Fallback".spec_bytes()),
        _ => false,
    }
}

/// A package-data `ANAM`/`PNAM` naming `Fallback` renamed `Sequence` (a
/// NUL-terminated byte string, or the interned string).
pub open spec fn fallback_renamed(interner: StringInterner, held: Seq<Seq<u8>>, e: EntryView) -> EntryView {
    if (e.sig == code('A', 'N', 'A', 'M') || e.sig == code('P', 'N', 'A', 'M')) && names_fallback(interner, e.value) {
        match e.value {
            FieldView::Bytes(_) => EntryView { value: FieldView::Bytes("Sequence\0".spec_bytes()), ..e },
            _ => EntryView { value: FieldView::String(handle_of(held, "Sequence".spec_bytes())), ..e },
        }
    } else {
        e
    }
}

/// A PACK whose package-data names after its first `XNAM` are renamed.
pub open spec fn fallback_procedures_mapped(interner: StringInterner, held: Seq<Seq<u8>>, r: RecordView) -> RecordView {
    RecordView {
        fields: Seq::new(
            r.fields.len(),
            |i: int| if has_sig(r.fields.take(i), code('X', 'N', 'A', 'M')) {
                fallback_renamed(interner, held, r.fields[i])
            } else {
                r.fields[i]
            },
        ),
        ..r
    }
}

/// Whether some package-data string after the first `XNAM` names `Fallback`.
pub open spec fn has_string_fallback(interner: StringInterner, r: RecordView) -> bool {
    exists|i: int|
        0 <= i < r.fields.len() && #[trigger] string_fallback_at(interner, r.fields, i)
}

/// Whether entry `i` is a package-data string naming `Fallback` after the
/// first `XNAM`.
pub open spec fn string_fallback_at(interner: StringInterner, f: Seq<EntryView>, i: int) -> bool {
    &&& has_sig(f.take(i), code('X', 'N', 'A', 'M'))
    &&& (f[i].sig == code('A', 'N', 'A', 'M') || f[i].sig == code('P', 'N', 'A', 'M'))
    &&& f[i].value is String
    &&& names_fallback(interner, f[i].value)
}

fn names_fallback_exec(interner: &StringInterner, v: &FieldValue) -> (r: bool)
    ensures
        r == names_fallback(*interner, v@),
{
    match v {
        FieldValue::Bytes(b) => {
            let n = b.len();
            if n > 0 && b[n - 1] == 0 {
                let mut t: Vec<u8> = crate::model::copy_bytes(b.as_slice());
                t.pop();
                assert(t@ =~= b@.drop_last());
                bytes_eq(t.as_slice(), lit("Fallback"))
            } else {
                bytes_eq(b.as_slice(), lit("Fallback"))
            }
        },
        FieldValue::String(sym) => match interner.resolve(*sym) {
            Some(t) => bytes_eq(t, lit("Fallback")),
            None => false,
        },
        _ => false,
    }
}

/// The package-location and target types that index a quest alias, and
/// their replacements.
pub open spec fn alias_target_replacement(s: [u8; 4], t: u32) -> Option<u32> {
    if (s == code('P', 'L', 'D', 'T') || s == code('P', 'L', 'V', 'D')) && (t == 8 || t == 9 || t == 14) {
        Some(2)
    } else if s == code('P', 'T', 'D', 'A') && t == 4 {
        Some(6)
    } else {
        None
    }
}

/// A location or target whose type indexes a quest alias, switched to the
/// benign non-alias type with a zero value.
pub open spec fn alias_target_neutralized(e: EntryView) -> EntryView {
    match e.value {
        FieldView::Bytes(b) => if b.len() >= 8 {
            match alias_target_replacement(e.sig, le32(b, 0)) {
                Some(rep) => EntryView {
                    value: FieldView::Bytes(splice(splice(b, 0, u32_bytes(rep)), 4, u32_bytes(0))),
                    ..e
                },
                None => e,
            }
        } else {
            e
        },
        _ => e,
    }
}

fn neutralize_alias_target(e: FieldEntry) -> (r: FieldEntry)
    ensures
        r@ == alias_target_neutralized(e@),
{
    let mut e = e;
    let s = e.sig.0;
    let location = sig_is(s, 'P', 'L', 'D', 'T') || sig_is(s, 'P', 'L', 'V', 'D');
    let target = sig_is(s, 'P', 'T', 'D', 'A');
    if !location && !target {
        return e;
    }
    if let FieldValue::Bytes(bytes) = &mut e.value {
        if bytes.len() >= 8 {
            let t = read_u32_le(bytes.as_slice(), 0);
            let rep: Option<u32> = if location && (t == 8 || t == 9 || t == 14) {
                Some(2)
            } else if target && t == 4 {
                Some(6)
            } else {
                None
            };
            if let Some(rep) = rep {
                write_u32_le(bytes, 0, rep);
                write_u32_le(bytes, 4, 0);
            }
        }
    }
    e
}

impl Fo76Fo4Hook {
    /// Switch PACK locations and targets that index a quest alias FO4
    /// cannot resolve to a benign non-alias type.
    pub fn neutralize_dangling_package_alias_targets(record: &mut Record)
        ensures
            old(record)@.sig != code('P', 'A', 'C', 'K') ==> final(record)@ == old(record)@,
            old(record)@.sig == code('P', 'A', 'C', 'K') ==> final(record)@ == map_fields(
                old(record)@,
                |e: EntryView| alias_target_neutralized(e),
            ),
    {
        if !sig_is(record.sig.0, 'P', 'A', 'C', 'K') {
            return;
        }
        map_entries(&mut record.fields, neutralize_alias_target, Ghost(|e: EntryView| alias_target_neutralized(e)));
    }

    /// Rename `Fallback` package-data procedures after the first `XNAM` to
    /// `Sequence`; the interner gains `Sequence` when a string needs it.
    pub fn map_fo76_fallback_package_procedure(interner: &mut StringInterner, record: &mut Record)
        requires
            old(interner).wf(),
            old(interner)@.len() + 1 <= u32::MAX,
        ensures
            old(interner)@.contains("Sequence".spec_bytes()) ==> *final(interner) == *old(interner),
            final(interner).wf(),
            old(record)@.sig != code('P', 'A', 'C', 'K') ==> final(record)@ == old(record)@
                && final(interner)@ == old(interner)@,
            old(record)@.sig == code('P', 'A', 'C', 'K') ==> {
                &&& final(interner)@ == if has_string_fallback(*old(interner), old(record)@) {
                    interned(old(interner)@, "Sequence".spec_bytes())
                } else {
                    old(interner)@
                }
                &&& final(record)@ == fallback_procedures_mapped(*old(interner), final(interner)@, old(record)@)
            },
    {
        if !sig_is(record.sig.0, 'P', 'A', 'C', 'K') {
            return;
        }
        let ghost i0 = *interner;
        let ghost orig = record@.fields;
        let n = record.fields.len();
        let mut needs = false;
        let mut after = false;
        let mut renames: Vec<bool> = Vec::new();
        let mut i: usize = 0;
        while i < n
            invariant
                n == record.fields@.len(),
                orig == record@.fields,
                orig.len() == n,
                i <= n,
                renames@.len() == i,
                after == has_sig(orig.take(i as int), code('X', 'N', 'A', 'M')),
                forall|j: int| 0 <= j < i ==> #[trigger] renames@[j] == (has_sig(orig.take(j), code('X', 'N', 'A', 'M'))
                    && (orig[j].sig == code('A', 'N', 'A', 'M') || orig[j].sig == code('P', 'N', 'A', 'M'))
                    && names_fallback(i0, orig[j].value)),
                needs <==> exists|j: int| 0 <= j < i && #[trigger] string_fallback_at(i0, orig, j),
                i0 == *interner,
            decreases n - i,
        {
            assert(orig[i as int] == record.fields@[i as int]@);
            let s = record.fields[i].sig.0;
            let rename = after && (sig_is(s, 'A', 'N', 'A', 'M') || sig_is(s, 'P', 'N', 'A', 'M'))
                && names_fallback_exec(interner, &record.fields[i].value);
            if rename {
                if let FieldValue::String(_) = &record.fields[i].value {
                    assert(string_fallback_at(i0, orig, i as int));
                    needs = true;
                }
            }
            proof {
                if !needs {
                    assert(!string_fallback_at(i0, orig, i as int));
                }
                crate::fields::lemma_has_sig_take(orig, code('X', 'N', 'A', 'M'), i as int);
            }
            renames.push(rename);
            if sig_is(s, 'X', 'N', 'A', 'M') {
                after = true;
            }
            i = i + 1;
        }
        let mut seq_handle = Sym(0);
        if needs {
            seq_handle = interner.intern_str("Sequence");
            proof {
                lemma_handle_of(*interner, seq_handle, "Sequence".spec_bytes());
            }
        }
        let ghost held = interner@;
        let mut i: usize = 0;
        while i < n
            invariant
                n == record.fields@.len(),
                orig.len() == n,
                i <= n,
                renames@.len() == n,
                forall|j: int| 0 <= j < n ==> #[trigger] renames@[j] == (has_sig(orig.take(j), code('X', 'N', 'A', 'M'))
                    && (orig[j].sig == code('A', 'N', 'A', 'M') || orig[j].sig == code('P', 'N', 'A', 'M'))
                    && names_fallback(i0, orig[j].value)),
                needs <==> exists|j: int| 0 <= j < n && #[trigger] string_fallback_at(i0, orig, j),
                needs ==> seq_handle == handle_of(held, "Sequence".spec_bytes()),
                forall|j: int| 0 <= j < i ==> #[trigger] record@.fields[j] == (if has_sig(orig.take(j), code('X', 'N', 'A', 'M')) {
                    fallback_renamed(i0, held, orig[j])
                } else {
                    orig[j]
                }),
                forall|j: int| i <= j < n ==> #[trigger] record@.fields[j] == orig[j],
                record@.sig == old(record)@.sig,
                record@.form_key == old(record)@.form_key,
                record@.eid == old(record)@.eid,
            decreases n - i,
        {
            assert(record@.fields[i as int] == record.fields@[i as int]@);
            if renames[i] {
                let s = record.fields[i].sig.0;
                let value = match &record.fields[i].value {
                    FieldValue::Bytes(_) => FieldValue::Bytes(crate::model::copy_bytes(lit("Sequence\0"))),
                    _ => {
                        proof {
                            assert(string_fallback_at(i0, orig, i as int));
                        }
                        FieldValue::String(seq_handle)
                    },
                };
                let entry = FieldEntry { sig: SubrecordSig(s), value: value };
                let ghost before = record@.fields;
                let ghost ev = entry@;
                record.fields.set(i, entry);
                assert(record@.fields =~= before.update(i as int, ev));
            }
            i = i + 1;
        }
        assert(record@.fields =~= fallback_procedures_mapped(i0, held, old(record)@).fields);
    }

    /// Rewrite a PACK's procedure tree for FO4. The rewrite's names are
    /// interned first.
    pub fn normalize_fo76_pack_procedure_tree(interner: &mut StringInterner, record: &mut Record)
        requires
            old(interner).wf(),
            old(interner)@.len() + pack_names().len() <= u32::MAX,
        ensures
            final(interner).wf(),
            final(interner)@ == intern_all(old(interner)@, pack_names()),
            (old(record)@.sig != code('P', 'A', 'C', 'K') || procedure_tree_bounds(old(record)@) is None)
                ==> final(record)@ == old(record)@,
            old(record)@.sig == code('P', 'A', 'C', 'K') ==> (procedure_tree_bounds(old(record)@) matches Some(b)
                ==> final(record)@ == procedure_tree_normalized(*final(interner), old(record)@, b.0, b.1)),
    {
        let names = pack_name_list();
        intern_each(interner, names.as_slice());
        proof {
            assert(strs_bytes(names@) =~= pack_names());
            assert forall|k: int| 0 <= k < pack_names().len() implies interner@.contains(#[trigger] pack_names()[k]) by {
                assert(strs_bytes(names@)[k] == pack_names()[k]);
                }
        }
        Self::normalize_fo76_pack_procedure_tree_interned(interner, record)
    }

    /// Rewrite a PACK's procedure tree for FO4. The rewrite's names must be
    /// held already, so nothing is interned.
    #[verifier::spinoff_prover]
    pub(crate) fn normalize_fo76_pack_procedure_tree_interned(interner: &StringInterner, record: &mut Record)
        requires
            interner.wf(),
            holds_pack_names(interner@),
        ensures
            (old(record)@.sig != code('P', 'A', 'C', 'K') || procedure_tree_bounds(old(record)@) is None)
                ==> final(record)@ == old(record)@,
            old(record)@.sig == code('P', 'A', 'C', 'K') ==> (procedure_tree_bounds(old(record)@) matches Some(b)
                ==> final(record)@ == procedure_tree_normalized(*interner, old(record)@, b.0, b.1)),
    {
        if !sig_is(record.sig.0, 'P', 'A', 'C', 'K') {
            return;
        }
        let ghost r0 = record@;
        let Some(x) = find_sig(&record.fields, tag('X', 'N', 'A', 'M')) else {
            return;
        };
        let n = record.fields.len();
        let ts = x + 1;
        let mut te = ts;
        while te < n && !is_tree_boundary(record.fields[te].sig.0)
            invariant
                n == record.fields@.len(),
                r0 == record@,
                ts <= te <= n,
                forall|k: int| ts <= k < te ==> !tree_boundary_sig(#[trigger] r0.fields[k].sig),
            decreases n - te,
        {
            assert(r0.fields[te as int] == record.fields@[te as int]@);
            te = te + 1;
        }
        proof {
            let sub = r0.fields.skip(ts as int);
            let p = |e: EntryView| tree_boundary_sig(e.sig);
            if te < n {
                assert(r0.fields[te as int] == record.fields@[te as int]@);
                assert(sub[te - ts] == r0.fields[te as int]);
            }
            assert forall|k: int| 0 <= k < te - ts implies !p(#[trigger] sub[k]) by {
                assert(sub[k] == r0.fields[ts + k]);
            }
            lemma_first_where(sub, p, te - ts);
        }
        if ts >= te {
            return;
        }
        let mut tail = record.fields.split_off(te);
        let mid = record.fields.split_off(ts);
        let mut rewritten = Self::rewrite_pack_procedure_tree_entries_interned(interner, mid.as_slice());
        let ghost head = entries_view(record.fields@);
        append_entries(&mut record.fields, &mut rewritten);
        append_entries(&mut record.fields, &mut tail);
        proof {
            assert(head =~= r0.fields.take(ts as int));
            assert(entries_view(mid@) =~= r0.fields.subrange(ts as int, te as int));
            assert(entries_view(record.fields@) =~= procedure_tree_normalized(*interner, r0, ts as int, te as int).fields);
        }
    }
}


/// Whether `name` is a procedure name FO4 defines.
pub open spec fn fo4_procedure(name: Seq<u8>) -> bool {
    exists|t: Seq<u8>| fo4_procedure_name(t) == Some(name)
}

/// Whether a rewritten tree entry fits FO4: a `PNAM` holds the interned name
/// of an FO4 procedure, and an `ANAM` has a readable branch type other than
/// `Fallback`.
pub open spec fn fo4_tree_entry(interner: StringInterner, e: EntryView) -> bool {
    &&& e.sig == code('P', 'N', 'A', 'M') ==> exists|name: Seq<u8>|
        #[trigger] fo4_procedure(name) && e.value == FieldView::String(handle_of(interner@, name))
    &&& e.sig == code('A', 'N', 'A', 'M') ==> (pack_tree_text(interner, e.value) matches Some(t) && t
        != "Fallback".spec_bytes())
}

proof fn lemma_handle_resolves(interner: StringInterner, s: Seq<u8>)
    requires
        interner.wf(),
        interner@.contains(s),
    ensures
        interner.spec_resolve(handle_of(interner@, s)) == Some(s),
{
    let held = interner@;
    let i = choose|i: int| 0 <= i < held.len() && held[i] == s;
    assert(i as u32 as int == i);
}

proof fn lemma_tree_parts_fo4(interner: StringInterner, items: Seq<EntryView>)
    requires
        forall|k: int| 0 <= k < items.len() ==> (#[trigger] items[k]).sig != code('A', 'N', 'A', 'M'),
    ensures
        ({
            let p = tree_parts(interner, interner@, items);
            &&& forall|k: int| 0 <= k < p.root.len() ==> (#[trigger] p.root[k]).sig == code('P', 'R', 'C', 'B')
            &&& forall|k: int| 0 <= k < p.trailing.len() ==> (#[trigger] p.trailing[k]).sig == code('P', 'K', 'C', '2')
            &&& forall|k: int| 0 <= k < p.prefix.len() ==> (#[trigger] p.prefix[k]).sig != code('P', 'N', 'A', 'M')
                && p.prefix[k].sig != code('A', 'N', 'A', 'M')
            &&& forall|k: int| 0 <= k < p.procedure.len() ==> fo4_tree_entry(interner, #[trigger] p.procedure[k])
        }),
    decreases items.len(),
{
    if items.len() > 0 {
        let rest = items.drop_last();
        assert forall|k: int| 0 <= k < rest.len() implies (#[trigger] rest[k]).sig != code('A', 'N', 'A', 'M') by {
            assert(rest[k] == items[k]);
        }
        lemma_tree_parts_fo4(interner, rest);
        let e = items.last();
        assert(e == items[items.len() - 1]);
        let q = tree_parts(interner, interner@, rest);
        let p = tree_parts(interner, interner@, items);
        assert(p == tree_parts_step(interner, interner@, q, e));
        if e.sig == code('P', 'N', 'A', 'M') {
            if let Some(name) = mapped_procedure(interner, e.value) {
                let t = procedure_text(interner, e.value)->0;
                assert(fo4_procedure_name(t) == Some(name));
                assert(fo4_procedure(name));
                let x = text_entry(e, interner@, name);
                assert(fo4_tree_entry(interner, x));
                assert(p.procedure == q.procedure.push(x));
                assert forall|k: int| 0 <= k < p.procedure.len() implies fo4_tree_entry(interner, #[trigger] p.procedure[k]) by {
                    if k < q.procedure.len() {
                        assert(p.procedure[k] == q.procedure[k]);
                    }
                }
            }
        }
    }
}

/// Whether every entry of `s` fits FO4.
pub open spec fn all_fo4(interner: StringInterner, s: Seq<EntryView>) -> bool {
    forall|k: int| 0 <= k < s.len() ==> fo4_tree_entry(interner, #[trigger] s[k])
}

proof fn lemma_all_fo4_add(interner: StringInterner, a: Seq<EntryView>, b: Seq<EntryView>)
    requires
        all_fo4(interner, a),
        all_fo4(interner, b),
    ensures
        all_fo4(interner, a + b),
{
    assert forall|k: int| 0 <= k < (a + b).len() implies fo4_tree_entry(interner, #[trigger] (a + b)[k]) by {
        if k < a.len() {
            assert((a + b)[k] == a[k]);
        } else {
            assert((a + b)[k] == b[k - a.len()]);
        }
    }
}

proof fn lemma_named_branch_fo4(interner: StringInterner, head: EntryView, name: Seq<u8>)
    requires
        interner.wf(),
        interner@.contains(name),
        head.sig == code('A', 'N', 'A', 'M'),
        name != "Fallback".spec_bytes(),
    ensures
        fo4_tree_entry(interner, text_entry(head, interner@, name)),
{
    lemma_handle_resolves(interner, name);
}

proof fn lemma_branch_fo4(interner: StringInterner, head: EntryView)
    requires
        interner.wf(),
        interner@.contains("Sequence".spec_bytes()),
        interner@.contains("Procedure".spec_bytes()),
        head.sig == code('A', 'N', 'A', 'M'),
        pack_tree_text(interner, head.value) is Some,
    ensures
        ({
            let t = pack_tree_text(interner, head.value)->0;
            let branch = if t == "Fallback".spec_bytes() {
                text_entry(head, interner@, "Sequence".spec_bytes())
            } else {
                head
            };
            &&& all_fo4(interner, seq![branch])
            &&& all_fo4(interner, seq![procedure_branch(interner@), zero_citc()])
        }),
{
    let held = interner@;
    reveal_strlit("Sequence");
    reveal_strlit("Procedure");
    reveal_strlit("Fallback");
    assert(vstd::string::is_ascii("Sequence"));
    assert(vstd::string::is_ascii("Procedure"));
    assert(vstd::string::is_ascii("Fallback"));
    vstd::string::is_ascii_spec_bytes("Sequence");
    vstd::string::is_ascii_spec_bytes("Procedure");
    vstd::string::is_ascii_spec_bytes("Fallback");
    assert("Sequence".spec_bytes()[0] != "Fallback".spec_bytes()[0]);
    assert("Procedure".spec_bytes().len() != "Fallback".spec_bytes().len());
    lemma_named_branch_fo4(interner, head, "Sequence".spec_bytes());
    let pbh = EntryView { sig: code('A', 'N', 'A', 'M'), value: FieldView::Bytes(Seq::empty()) };
    lemma_named_branch_fo4(interner, pbh, "Procedure".spec_bytes());
    assert(text_entry(pbh, held, "Procedure".spec_bytes()) == procedure_branch(held));
    let t = pack_tree_text(interner, head.value)->0;
    let branch = if t == "Fallback".spec_bytes() {
        text_entry(head, held, "Sequence".spec_bytes())
    } else {
        head
    };
    assert(fo4_tree_entry(interner, branch));
    let pb = seq![procedure_branch(held), zero_citc()];
    assert(fo4_tree_entry(interner, zero_citc()));
    assert forall|k: int| 0 <= k < pb.len() implies fo4_tree_entry(interner, #[trigger] pb[k]) by {}
    assert forall|k: int| 0 <= k < 1 implies fo4_tree_entry(interner, #[trigger] seq![branch][k]) by {}
}

proof fn lemma_roots_fo4(interner: StringInterner, s: Seq<EntryView>)
    requires
        forall|k: int| 0 <= k < s.len() ==> (#[trigger] s[k]).sig == code('P', 'R', 'C', 'B'),
    ensures
        all_fo4(interner, s),
{
    assert forall|k: int| 0 <= k < s.len() implies fo4_tree_entry(interner, #[trigger] s[k]) by {}
}

proof fn lemma_pack_branch_names_held(held: Seq<Seq<u8>>)
    requires
        holds_pack_names(held),
    ensures
        held.contains("Sequence".spec_bytes()),
        held.contains("Procedure".spec_bytes()),
{
    assert(held.contains(pack_names()[0]));
    assert(held.contains(pack_names()[1]));
}

#[verifier::rlimit(100)]
#[verifier::spinoff_prover]
proof fn lemma_group_fo4(interner: StringInterner, group: Seq<EntryView>, carry: Seq<EntryView>)
    requires
        interner.wf(),
        holds_pack_names(interner@),
        group.len() > 0,
        group[0].sig == code('A', 'N', 'A', 'M'),
        pack_tree_text(interner, group[0].value) is Some,
        forall|k: int| 1 <= k < group.len() ==> (#[trigger] group[k]).sig != code('A', 'N', 'A', 'M'),
        forall|k: int| 0 <= k < carry.len() ==> (#[trigger] carry[k]).sig == code('P', 'R', 'C', 'B'),
    ensures
        all_fo4(interner, group_rewrite(interner, interner@, group, carry).0),
        forall|k: int| 0 <= k < group_rewrite(interner, interner@, group, carry).1.len() ==> (
        #[trigger] group_rewrite(interner, interner@, group, carry).1[k]).sig == code('P', 'R', 'C', 'B'),
{
    let held = interner@;
    let items = group.drop_first();
    assert forall|k: int| 0 <= k < items.len() implies (#[trigger] items[k]).sig != code('A', 'N', 'A', 'M') by {
        assert(items[k] == group[k + 1]);
    }
    lemma_tree_parts_fo4(interner, items);
    let p = tree_parts(interner, held, items);
    let t = pack_tree_text(interner, group[0].value)->0;
    lemma_pack_branch_names_held(held);
    lemma_branch_fo4(interner, group[0]);
    let branch = if t == "Fallback".spec_bytes() {
        text_entry(group[0], held, "Sequence".spec_bytes())
    } else {
        group[0]
    };
    lemma_roots_fo4(interner, carry);
    lemma_roots_fo4(interner, p.root);
    assert(all_fo4(interner, p.prefix));
    assert(all_fo4(interner, p.procedure));
    lemma_roots_fo4(interner, p.root);
    assert(all_fo4(interner, p.trailing));
    if t == "Procedure".spec_bytes() {
        let cr = carry + p.root;
        assert forall|k: int| 0 <= k < cr.len() implies (#[trigger] cr[k]).sig == code('P', 'R', 'C', 'B') by {
            if k < carry.len() {
                assert(cr[k] == carry[k]);
            } else {
                assert(cr[k] == p.root[k - carry.len()]);
            }
        }
        lemma_all_fo4_add(interner, seq![branch], p.prefix);
        lemma_all_fo4_add(interner, seq![branch] + p.prefix, p.procedure);
        lemma_all_fo4_add(interner, seq![branch] + p.prefix + p.procedure, p.trailing);
    } else {
        let roots = if carry.len() > 0 { carry } else { p.root };
        lemma_all_fo4_add(interner, seq![procedure_branch(held), zero_citc()], p.procedure);
        let procedure = if p.procedure.len() > 0 {
            seq![procedure_branch(held), zero_citc()] + p.procedure
        } else {
            Seq::empty()
        };
        assert(all_fo4(interner, procedure));
        lemma_all_fo4_add(interner, seq![branch], p.prefix);
        lemma_all_fo4_add(interner, seq![branch] + p.prefix, roots);
        lemma_all_fo4_add(interner, seq![branch] + p.prefix + roots, procedure);
        lemma_all_fo4_add(interner, seq![branch] + p.prefix + roots + procedure, p.trailing);
    }
}

proof fn lemma_tree_rewrite_fo4(interner: StringInterner, entries: Seq<EntryView>, carry: Seq<EntryView>)
    requires
        interner.wf(),
        holds_pack_names(interner@),
        entries.len() > 0 ==> entries[0].sig == code('A', 'N', 'A', 'M'),
        forall|k: int| 0 <= k < entries.len() && (#[trigger] entries[k]).sig == code('A', 'N', 'A', 'M')
            ==> pack_tree_text(interner, entries[k].value) is Some,
        forall|k: int| 0 <= k < carry.len() ==> (#[trigger] carry[k]).sig == code('P', 'R', 'C', 'B'),
    ensures
        forall|k: int| 0 <= k < tree_rewrite(interner, interner@, entries, carry).len() ==> fo4_tree_entry(
            interner,
            #[trigger] tree_rewrite(interner, interner@, entries, carry)[k],
        ),
    decreases entries.len(),
{
    let held = interner@;
    if entries.len() == 0 {
        assert forall|k: int| 0 <= k < carry.len() implies fo4_tree_entry(interner, #[trigger] carry[k]) by {}
    } else {
        let g = group_end(entries);
        lemma_group_end(entries);
        lemma_first_where_bounds(entries.drop_first(), |e: EntryView| e.sig == code('A', 'N', 'A', 'M'));
        crate::fields::lemma_first_where_none(entries.drop_first(), |e: EntryView| e.sig == code('A', 'N', 'A', 'M'));
        let group = entries.take(g);
        assert forall|k: int| 1 <= k < group.len() implies (#[trigger] group[k]).sig != code('A', 'N', 'A', 'M') by {
            assert(group[k] == entries.drop_first()[k - 1]);
        }
        lemma_group_fo4(interner, group, carry);
        let r = group_rewrite(interner, held, group, carry);
        assert(all_fo4(interner, r.0));
        let rest = entries.skip(g);
        assert forall|k: int| 0 <= k < rest.len() && (#[trigger] rest[k]).sig == code('A', 'N', 'A', 'M')
            implies pack_tree_text(interner, rest[k].value) is Some by {
            assert(rest[k] == entries[g + k]);
        }
        if rest.len() > 0 {
            assert(rest[0] == entries.drop_first()[g - 1]);
        }
        lemma_tree_rewrite_fo4(interner, rest, r.1);
        let tail = tree_rewrite(interner, held, rest, r.1);
        let o = tree_rewrite(interner, held, entries, carry);
        assert(o == r.0 + tail);
        assert forall|k: int| 0 <= k < o.len() implies fo4_tree_entry(interner, #[trigger] o[k]) by {
            if k < r.0.len() {
                assert(o[k] == r.0[k]);
            } else {
                assert(o[k] == tail[k - r.0.len()]);
            }
        }
    }
}

proof fn lemma_tree_rewrite_prefix(interner: StringInterner, entries: Seq<EntryView>, carry: Seq<EntryView>, k: int)
    requires
        0 <= k <= entries.len(),
        forall|j: int| 0 <= j < k ==> (#[trigger] entries[j]).sig != code('A', 'N', 'A', 'M'),
    ensures
        tree_rewrite(interner, interner@, entries, carry) == entries.take(k) + tree_rewrite(
            interner,
            interner@,
            entries.skip(k),
            carry,
        ),
    decreases k,
{
    if k > 0 {
        let rest = entries.drop_first();
        assert forall|j: int| 0 <= j < k - 1 implies (#[trigger] rest[j]).sig != code('A', 'N', 'A', 'M') by {
            assert(rest[j] == entries[j + 1]);
        }
        lemma_tree_rewrite_prefix(interner, rest, carry, k - 1);
        assert(rest.skip(k - 1) =~= entries.skip(k));
        assert(entries.take(k) =~= seq![entries[0]] + rest.take(k - 1));
    } else {
        assert(entries.skip(0) =~= entries);
    }
}

/// After the procedure tree rewrite, the entries before the first branch
/// (`ANAM`) are copied as they were, and from it on every procedure
/// (`PNAM`) holds an FO4 procedure name and no branch has the type
/// `Fallback`. This holds when every branch has a readable type and the
/// rewrite's names are held.
pub proof fn law_pack_tree_fo4_procedures(interner: StringInterner, entries: Seq<EntryView>)
    requires
        interner.wf(),
        holds_pack_names(interner@),
        forall|k: int| 0 <= k < entries.len() && (#[trigger] entries[k]).sig == code('A', 'N', 'A', 'M')
            ==> pack_tree_text(interner, entries[k].value) is Some,
    ensures
        ({
            let out = tree_rewrite(interner, interner@, entries, Seq::empty());
            let k = match first_with_sig(entries, code('A', 'N', 'A', 'M')) {
                Some(k) => k,
                None => entries.len() as int,
            };
            &&& out.take(k) == entries.take(k)
            &&& forall|j: int| k <= j < out.len() ==> fo4_tree_entry(interner, #[trigger] out[j])
        }),
{
    lemma_first_where_bounds(entries, |e: EntryView| e.sig == code('A', 'N', 'A', 'M'));
    crate::fields::lemma_first_where_none(entries, |e: EntryView| e.sig == code('A', 'N', 'A', 'M'));
    let k = match first_with_sig(entries, code('A', 'N', 'A', 'M')) {
        Some(k) => k,
        None => entries.len() as int,
    };
    lemma_tree_rewrite_prefix(interner, entries, Seq::empty(), k);
    let rest = entries.skip(k);
    if rest.len() > 0 {
        assert(rest[0] == entries[k]);
    }
    assert forall|j: int| 0 <= j < rest.len() && (#[trigger] rest[j]).sig == code('A', 'N', 'A', 'M')
        implies pack_tree_text(interner, rest[j].value) is Some by {
        assert(rest[j] == entries[k + j]);
    }
    lemma_tree_rewrite_fo4(interner, rest, Seq::empty());
    let out = tree_rewrite(interner, interner@, entries, Seq::empty());
    let tail = tree_rewrite(interner, interner@, rest, Seq::empty());
    assert(out.take(k) =~= entries.take(k));
    assert forall|j: int| k <= j < out.len() implies fo4_tree_entry(interner, #[trigger] out[j]) by {
        assert(out[j] == tail[j - k]);
    }
}

} // verus!

verus! {

proof fn lemma_procedure_literals()
    ensures
        "Trav".spec_bytes() == seq![84u8, 114u8, 97u8, 118u8],
        "Travel".spec_bytes() == seq![84u8, 114u8, 97u8, 118u8, 101u8, 108u8],
        "Sand".spec_bytes() == seq![83u8, 97u8, 110u8, 100u8],
        "Sandbox".spec_bytes() == seq![83u8, 97u8, 110u8, 100u8, 98u8, 111u8, 120u8],
        "Foll".spec_bytes() == seq![70u8, 111u8, 108u8, 108u8],
        "Follow".spec_bytes() == seq![70u8, 111u8, 108u8, 108u8, 111u8, 119u8],
        "Patr".spec_bytes() == seq![80u8, 97u8, 116u8, 114u8],
        "Patrol".spec_bytes() == seq![80u8, 97u8, 116u8, 114u8, 111u8, 108u8],
        "UseW".spec_bytes() == seq![85u8, 115u8, 101u8, 87u8],
        "UseWeapon".spec_bytes() == seq![85u8, 115u8, 101u8, 87u8, 101u8, 97u8, 112u8, 111u8, 110u8],
        "Rang".spec_bytes() == seq![82u8, 97u8, 110u8, 103u8],
        "Range".spec_bytes() == seq![82u8, 97u8, 110u8, 103u8, 101u8],
        "Unlo".spec_bytes() == seq![85u8, 110u8, 108u8, 111u8],
        "UnlockDoors".spec_bytes() == seq![85u8, 110u8, 108u8, 111u8, 99u8, 107u8, 68u8, 111u8, 111u8, 114u8, 115u8],
        "Acti".spec_bytes() == seq![65u8, 99u8, 116u8, 105u8],
        "Activate".spec_bytes() == seq![65u8, 99u8, 116u8, 105u8, 118u8, 97u8, 116u8, 101u8],
        "Esco".spec_bytes() == seq![69u8, 115u8, 99u8, 111u8],
        "Escort".spec_bytes() == seq![69u8, 115u8, 99u8, 111u8, 114u8, 116u8],
        "Hold".spec_bytes() == seq![72u8, 111u8, 108u8, 100u8],
        "HoldPosition".spec_bytes() == seq![72u8, 111u8, 108u8, 100u8, 80u8, 111u8, 115u8, 105u8, 116u8, 105u8, 111u8, 110u8],
        "Slee".spec_bytes() == seq![83u8, 108u8, 101u8, 101u8],
        "Sleep".spec_bytes() == seq![83u8, 108u8, 101u8, 101u8, 112u8],
        "Guar".spec_bytes() == seq![71u8, 117u8, 97u8, 114u8],
        "Guard".spec_bytes() == seq![71u8, 117u8, 97u8, 114u8, 100u8],
        "Say".spec_bytes() == seq![83u8, 97u8, 121u8],
        "ForceGreet".spec_bytes() == seq![70u8, 111u8, 114u8, 99u8, 101u8, 71u8, 114u8, 101u8, 101u8, 116u8],
        "Head".spec_bytes() == seq![72u8, 101u8, 97u8, 100u8],
        "Headtrack".spec_bytes() == seq![72u8, 101u8, 97u8, 100u8, 116u8, 114u8, 97u8, 99u8, 107u8],
        "Orbi".spec_bytes() == seq![79u8, 114u8, 98u8, 105u8],
        "Orbit".spec_bytes() == seq![79u8, 114u8, 98u8, 105u8, 116u8],
        "UseI".spec_bytes() == seq![85u8, 115u8, 101u8, 73u8],
        "UseIdleMarker".spec_bytes() == seq![85u8, 115u8, 101u8, 73u8, 100u8, 108u8, 101u8, 77u8, 97u8, 114u8, 107u8, 101u8, 114u8],
        "Wait".spec_bytes() == seq![87u8, 97u8, 105u8, 116u8],
        "Sit".spec_bytes() == seq![83u8, 105u8, 116u8],
        "Find".spec_bytes() == seq![70u8, 105u8, 110u8, 100u8],
        "Eat".spec_bytes() == seq![69u8, 97u8, 116u8],
        "Flee".spec_bytes() == seq![70u8, 108u8, 101u8, 101u8],
        "GuardArea".spec_bytes() == seq![71u8, 117u8, 97u8, 114u8, 100u8, 65u8, 114u8, 101u8, 97u8],
        "Hover".spec_bytes() == seq![72u8, 111u8, 118u8, 101u8, 114u8],
        "KeepAnEyeOn".spec_bytes() == seq![75u8, 101u8, 101u8, 112u8, 65u8, 110u8, 69u8, 121u8, 101u8, 79u8, 110u8],
        "LockDoors".spec_bytes() == seq![76u8, 111u8, 99u8, 107u8, 68u8, 111u8, 111u8, 114u8, 115u8],
        "UseMagic".spec_bytes() == seq![85u8, 115u8, 101u8, 77u8, 97u8, 103u8, 105u8, 99u8],
        "Acquire".spec_bytes() == seq![65u8, 99u8, 113u8, 117u8, 105u8, 114u8, 101u8],
        "FollowTo".spec_bytes() == seq![70u8, 111u8, 108u8, 108u8, 111u8, 119u8, 84u8, 111u8],
{
    reveal_strlit("Trav");
    assert(vstd::string::is_ascii("Trav"));
    vstd::string::is_ascii_spec_bytes("Trav");
    assert("Trav".spec_bytes() =~= seq![84u8, 114u8, 97u8, 118u8]);
    reveal_strlit("Travel");
    assert(vstd::string::is_ascii("Travel"));
    vstd::string::is_ascii_spec_bytes("Travel");
    assert("Travel".spec_bytes() =~= seq![84u8, 114u8, 97u8, 118u8, 101u8, 108u8]);
    reveal_strlit("Sand");
    assert(vstd::string::is_ascii("Sand"));
    vstd::string::is_ascii_spec_bytes("Sand");
    assert("Sand".spec_bytes() =~= seq![83u8, 97u8, 110u8, 100u8]);
    reveal_strlit("Sandbox");
    assert(vstd::string::is_ascii("Sandbox"));
    vstd::string::is_ascii_spec_bytes("Sandbox");
    assert("Sandbox".spec_bytes() =~= seq![83u8, 97u8, 110u8, 100u8, 98u8, 111u8, 120u8]);
    reveal_strlit("Foll");
    assert(vstd::string::is_ascii("Foll"));
    vstd::string::is_ascii_spec_bytes("Foll");
    assert("Foll".spec_bytes() =~= seq![70u8, 111u8, 108u8, 108u8]);
    reveal_strlit("Follow");
    assert(vstd::string::is_ascii("Follow"));
    vstd::string::is_ascii_spec_bytes("Follow");
    assert("Follow".spec_bytes() =~= seq![70u8, 111u8, 108u8, 108u8, 111u8, 119u8]);
    reveal_strlit("Patr");
    assert(vstd::string::is_ascii("Patr"));
    vstd::string::is_ascii_spec_bytes("Patr");
    assert("Patr".spec_bytes() =~= seq![80u8, 97u8, 116u8, 114u8]);
    reveal_strlit("Patrol");
    assert(vstd::string::is_ascii("Patrol"));
    vstd::string::is_ascii_spec_bytes("Patrol");
    assert("Patrol".spec_bytes() =~= seq![80u8, 97u8, 116u8, 114u8, 111u8, 108u8]);
    reveal_strlit("UseW");
    assert(vstd::string::is_ascii("UseW"));
    vstd::string::is_ascii_spec_bytes("UseW");
    assert("UseW".spec_bytes() =~= seq![85u8, 115u8, 101u8, 87u8]);
    reveal_strlit("UseWeapon");
    assert(vstd::string::is_ascii("UseWeapon"));
    vstd::string::is_ascii_spec_bytes("UseWeapon");
    assert("UseWeapon".spec_bytes() =~= seq![85u8, 115u8, 101u8, 87u8, 101u8, 97u8, 112u8, 111u8, 110u8]);
    reveal_strlit("Rang");
    assert(vstd::string::is_ascii("Rang"));
    vstd::string::is_ascii_spec_bytes("Rang");
    assert("Rang".spec_bytes() =~= seq![82u8, 97u8, 110u8, 103u8]);
    reveal_strlit("Range");
    assert(vstd::string::is_ascii("Range"));
    vstd::string::is_ascii_spec_bytes("Range");
    assert("Range".spec_bytes() =~= seq![82u8, 97u8, 110u8, 103u8, 101u8]);
    reveal_strlit("Unlo");
    assert(vstd::string::is_ascii("Unlo"));
    vstd::string::is_ascii_spec_bytes("Unlo");
    assert("Unlo".spec_bytes() =~= seq![85u8, 110u8, 108u8, 111u8]);
    reveal_strlit("UnlockDoors");
    assert(vstd::string::is_ascii("UnlockDoors"));
    vstd::string::is_ascii_spec_bytes("UnlockDoors");
    assert("UnlockDoors".spec_bytes() =~= seq![85u8, 110u8, 108u8, 111u8, 99u8, 107u8, 68u8, 111u8, 111u8, 114u8, 115u8]);
    reveal_strlit("Acti");
    assert(vstd::string::is_ascii("Acti"));
    vstd::string::is_ascii_spec_bytes("Acti");
    assert("Acti".spec_bytes() =~= seq![65u8, 99u8, 116u8, 105u8]);
    reveal_strlit("Activate");
    assert(vstd::string::is_ascii("Activate"));
    vstd::string::is_ascii_spec_bytes("Activate");
    assert("Activate".spec_bytes() =~= seq![65u8, 99u8, 116u8, 105u8, 118u8, 97u8, 116u8, 101u8]);
    reveal_strlit("Esco");
    assert(vstd::string::is_ascii("Esco"));
    vstd::string::is_ascii_spec_bytes("Esco");
    assert("Esco".spec_bytes() =~= seq![69u8, 115u8, 99u8, 111u8]);
    reveal_strlit("Escort");
    assert(vstd::string::is_ascii("Escort"));
    vstd::string::is_ascii_spec_bytes("Escort");
    assert("Escort".spec_bytes() =~= seq![69u8, 115u8, 99u8, 111u8, 114u8, 116u8]);
    reveal_strlit("Hold");
    assert(vstd::string::is_ascii("Hold"));
    vstd::string::is_ascii_spec_bytes("Hold");
    assert("Hold".spec_bytes() =~= seq![72u8, 111u8, 108u8, 100u8]);
    reveal_strlit("HoldPosition");
    assert(vstd::string::is_ascii("HoldPosition"));
    vstd::string::is_ascii_spec_bytes("HoldPosition");
    assert("HoldPosition".spec_bytes() =~= seq![72u8, 111u8, 108u8, 100u8, 80u8, 111u8, 115u8, 105u8, 116u8, 105u8, 111u8, 110u8]);
    reveal_strlit("Slee");
    assert(vstd::string::is_ascii("Slee"));
    vstd::string::is_ascii_spec_bytes("Slee");
    assert("Slee".spec_bytes() =~= seq![83u8, 108u8, 101u8, 101u8]);
    reveal_strlit("Sleep");
    assert(vstd::string::is_ascii("Sleep"));
    vstd::string::is_ascii_spec_bytes("Sleep");
    assert("Sleep".spec_bytes() =~= seq![83u8, 108u8, 101u8, 101u8, 112u8]);
    reveal_strlit("Guar");
    assert(vstd::string::is_ascii("Guar"));
    vstd::string::is_ascii_spec_bytes("Guar");
    assert("Guar".spec_bytes() =~= seq![71u8, 117u8, 97u8, 114u8]);
    reveal_strlit("Guard");
    assert(vstd::string::is_ascii("Guard"));
    vstd::string::is_ascii_spec_bytes("Guard");
    assert("Guard".spec_bytes() =~= seq![71u8, 117u8, 97u8, 114u8, 100u8]);
    reveal_strlit("Say");
    assert(vstd::string::is_ascii("Say"));
    vstd::string::is_ascii_spec_bytes("Say");
    assert("Say".spec_bytes() =~= seq![83u8, 97u8, 121u8]);
    reveal_strlit("ForceGreet");
    assert(vstd::string::is_ascii("ForceGreet"));
    vstd::string::is_ascii_spec_bytes("ForceGreet");
    assert("ForceGreet".spec_bytes() =~= seq![70u8, 111u8, 114u8, 99u8, 101u8, 71u8, 114u8, 101u8, 101u8, 116u8]);
    reveal_strlit("Head");
    assert(vstd::string::is_ascii("Head"));
    vstd::string::is_ascii_spec_bytes("Head");
    assert("Head".spec_bytes() =~= seq![72u8, 101u8, 97u8, 100u8]);
    reveal_strlit("Headtrack");
    assert(vstd::string::is_ascii("Headtrack"));
    vstd::string::is_ascii_spec_bytes("Headtrack");
    assert("Headtrack".spec_bytes() =~= seq![72u8, 101u8, 97u8, 100u8, 116u8, 114u8, 97u8, 99u8, 107u8]);
    reveal_strlit("Orbi");
    assert(vstd::string::is_ascii("Orbi"));
    vstd::string::is_ascii_spec_bytes("Orbi");
    assert("Orbi".spec_bytes() =~= seq![79u8, 114u8, 98u8, 105u8]);
    reveal_strlit("Orbit");
    assert(vstd::string::is_ascii("Orbit"));
    vstd::string::is_ascii_spec_bytes("Orbit");
    assert("Orbit".spec_bytes() =~= seq![79u8, 114u8, 98u8, 105u8, 116u8]);
    reveal_strlit("UseI");
    assert(vstd::string::is_ascii("UseI"));
    vstd::string::is_ascii_spec_bytes("UseI");
    assert("UseI".spec_bytes() =~= seq![85u8, 115u8, 101u8, 73u8]);
    reveal_strlit("UseIdleMarker");
    assert(vstd::string::is_ascii("UseIdleMarker"));
    vstd::string::is_ascii_spec_bytes("UseIdleMarker");
    assert("UseIdleMarker".spec_bytes() =~= seq![85u8, 115u8, 101u8, 73u8, 100u8, 108u8, 101u8, 77u8, 97u8, 114u8, 107u8, 101u8, 114u8]);
    reveal_strlit("Wait");
    assert(vstd::string::is_ascii("Wait"));
    vstd::string::is_ascii_spec_bytes("Wait");
    assert("Wait".spec_bytes() =~= seq![87u8, 97u8, 105u8, 116u8]);
    reveal_strlit("Sit");
    assert(vstd::string::is_ascii("Sit"));
    vstd::string::is_ascii_spec_bytes("Sit");
    assert("Sit".spec_bytes() =~= seq![83u8, 105u8, 116u8]);
    reveal_strlit("Find");
    assert(vstd::string::is_ascii("Find"));
    vstd::string::is_ascii_spec_bytes("Find");
    assert("Find".spec_bytes() =~= seq![70u8, 105u8, 110u8, 100u8]);
    reveal_strlit("Eat");
    assert(vstd::string::is_ascii("Eat"));
    vstd::string::is_ascii_spec_bytes("Eat");
    assert("Eat".spec_bytes() =~= seq![69u8, 97u8, 116u8]);
    reveal_strlit("Flee");
    assert(vstd::string::is_ascii("Flee"));
    vstd::string::is_ascii_spec_bytes("Flee");
    assert("Flee".spec_bytes() =~= seq![70u8, 108u8, 101u8, 101u8]);
    reveal_strlit("GuardArea");
    assert(vstd::string::is_ascii("GuardArea"));
    vstd::string::is_ascii_spec_bytes("GuardArea");
    assert("GuardArea".spec_bytes() =~= seq![71u8, 117u8, 97u8, 114u8, 100u8, 65u8, 114u8, 101u8, 97u8]);
    reveal_strlit("Hover");
    assert(vstd::string::is_ascii("Hover"));
    vstd::string::is_ascii_spec_bytes("Hover");
    assert("Hover".spec_bytes() =~= seq![72u8, 111u8, 118u8, 101u8, 114u8]);
    reveal_strlit("KeepAnEyeOn");
    assert(vstd::string::is_ascii("KeepAnEyeOn"));
    vstd::string::is_ascii_spec_bytes("KeepAnEyeOn");
    assert("KeepAnEyeOn".spec_bytes() =~= seq![75u8, 101u8, 101u8, 112u8, 65u8, 110u8, 69u8, 121u8, 101u8, 79u8, 110u8]);
    reveal_strlit("LockDoors");
    assert(vstd::string::is_ascii("LockDoors"));
    vstd::string::is_ascii_spec_bytes("LockDoors");
    assert("LockDoors".spec_bytes() =~= seq![76u8, 111u8, 99u8, 107u8, 68u8, 111u8, 111u8, 114u8, 115u8]);
    reveal_strlit("UseMagic");
    assert(vstd::string::is_ascii("UseMagic"));
    vstd::string::is_ascii_spec_bytes("UseMagic");
    assert("UseMagic".spec_bytes() =~= seq![85u8, 115u8, 101u8, 77u8, 97u8, 103u8, 105u8, 99u8]);
    reveal_strlit("Acquire");
    assert(vstd::string::is_ascii("Acquire"));
    vstd::string::is_ascii_spec_bytes("Acquire");
    assert("Acquire".spec_bytes() =~= seq![65u8, 99u8, 113u8, 117u8, 105u8, 114u8, 101u8]);
    reveal_strlit("FollowTo");
    assert(vstd::string::is_ascii("FollowTo"));
    vstd::string::is_ascii_spec_bytes("FollowTo");
    assert("FollowTo".spec_bytes() =~= seq![70u8, 111u8, 108u8, 108u8, 111u8, 119u8, 84u8, 111u8]);
}

#[verifier::rlimit(100)]
#[verifier::spinoff_prover]
proof fn lemma_procedure_names_0()
    ensures
        fo4_procedure_name(seq![84u8, 114u8, 97u8, 118u8, 101u8, 108u8]) == Some(seq![84u8, 114u8, 97u8, 118u8, 101u8, 108u8]),
        fo4_procedure_name(seq![83u8, 97u8, 110u8, 100u8, 98u8, 111u8, 120u8]) == Some(seq![83u8, 97u8, 110u8, 100u8, 98u8, 111u8, 120u8]),
        fo4_procedure_name(seq![70u8, 111u8, 108u8, 108u8, 111u8, 119u8]) == Some(seq![70u8, 111u8, 108u8, 108u8, 111u8, 119u8]),
        fo4_procedure_name(seq![87u8, 97u8, 105u8, 116u8]) == Some(seq![87u8, 97u8, 105u8, 116u8]),
{
    lemma_procedure_literals();
}

#[verifier::rlimit(100)]
#[verifier::spinoff_prover]
proof fn lemma_procedure_names_1()
    ensures
        fo4_procedure_name(seq![80u8, 97u8, 116u8, 114u8, 111u8, 108u8]) == Some(seq![80u8, 97u8, 116u8, 114u8, 111u8, 108u8]),
        fo4_procedure_name(seq![83u8, 105u8, 116u8]) == Some(seq![83u8, 105u8, 116u8]),
        fo4_procedure_name(seq![85u8, 115u8, 101u8, 87u8, 101u8, 97u8, 112u8, 111u8, 110u8]) == Some(seq![85u8, 115u8, 101u8, 87u8, 101u8, 97u8, 112u8, 111u8, 110u8]),
        fo4_procedure_name(seq![82u8, 97u8, 110u8, 103u8, 101u8]) == Some(seq![82u8, 97u8, 110u8, 103u8, 101u8]),
{
    lemma_procedure_literals();
}

#[verifier::rlimit(100)]
#[verifier::spinoff_prover]
proof fn lemma_procedure_names_2()
    ensures
        fo4_procedure_name(seq![85u8, 110u8, 108u8, 111u8, 99u8, 107u8, 68u8, 111u8, 111u8, 114u8, 115u8]) == Some(seq![85u8, 110u8, 108u8, 111u8, 99u8, 107u8, 68u8, 111u8, 111u8, 114u8, 115u8]),
        fo4_procedure_name(seq![65u8, 99u8, 116u8, 105u8, 118u8, 97u8, 116u8, 101u8]) == Some(seq![65u8, 99u8, 116u8, 105u8, 118u8, 97u8, 116u8, 101u8]),
        fo4_procedure_name(seq![70u8, 105u8, 110u8, 100u8]) == Some(seq![70u8, 105u8, 110u8, 100u8]),
        fo4_procedure_name(seq![69u8, 115u8, 99u8, 111u8, 114u8, 116u8]) == Some(seq![69u8, 115u8, 99u8, 111u8, 114u8, 116u8]),
{
    lemma_procedure_literals();
}

#[verifier::rlimit(100)]
#[verifier::spinoff_prover]
proof fn lemma_procedure_names_3()
    ensures
        fo4_procedure_name(seq![72u8, 111u8, 108u8, 100u8, 80u8, 111u8, 115u8, 105u8, 116u8, 105u8, 111u8, 110u8]) == Some(seq![72u8, 111u8, 108u8, 100u8, 80u8, 111u8, 115u8, 105u8, 116u8, 105u8, 111u8, 110u8]),
        fo4_procedure_name(seq![83u8, 108u8, 101u8, 101u8, 112u8]) == Some(seq![83u8, 108u8, 101u8, 101u8, 112u8]),
        fo4_procedure_name(seq![71u8, 117u8, 97u8, 114u8, 100u8]) == Some(seq![71u8, 117u8, 97u8, 114u8, 100u8]),
        fo4_procedure_name(seq![69u8, 97u8, 116u8]) == Some(seq![69u8, 97u8, 116u8]),
{
    lemma_procedure_literals();
}

#[verifier::rlimit(100)]
#[verifier::spinoff_prover]
proof fn lemma_procedure_names_4()
    ensures
        fo4_procedure_name(seq![70u8, 111u8, 114u8, 99u8, 101u8, 71u8, 114u8, 101u8, 101u8, 116u8]) == Some(seq![70u8, 111u8, 114u8, 99u8, 101u8, 71u8, 114u8, 101u8, 101u8, 116u8]),
        fo4_procedure_name(seq![70u8, 108u8, 101u8, 101u8]) == Some(seq![70u8, 108u8, 101u8, 101u8]),
        fo4_procedure_name(seq![72u8, 101u8, 97u8, 100u8, 116u8, 114u8, 97u8, 99u8, 107u8]) == Some(seq![72u8, 101u8, 97u8, 100u8, 116u8, 114u8, 97u8, 99u8, 107u8]),
        fo4_procedure_name(seq![79u8, 114u8, 98u8, 105u8, 116u8]) == Some(seq![79u8, 114u8, 98u8, 105u8, 116u8]),
{
    lemma_procedure_literals();
}

#[verifier::rlimit(100)]
#[verifier::spinoff_prover]
proof fn lemma_procedure_names_5()
    ensures
        fo4_procedure_name(seq![85u8, 115u8, 101u8, 73u8, 100u8, 108u8, 101u8, 77u8, 97u8, 114u8, 107u8, 101u8, 114u8]) == Some(seq![85u8, 115u8, 101u8, 73u8, 100u8, 108u8, 101u8, 77u8, 97u8, 114u8, 107u8, 101u8, 114u8]),
        fo4_procedure_name(seq![71u8, 117u8, 97u8, 114u8, 100u8, 65u8, 114u8, 101u8, 97u8]) == Some(seq![71u8, 117u8, 97u8, 114u8, 100u8, 65u8, 114u8, 101u8, 97u8]),
        fo4_procedure_name(seq![72u8, 111u8, 118u8, 101u8, 114u8]) == Some(seq![72u8, 111u8, 118u8, 101u8, 114u8]),
        fo4_procedure_name(seq![75u8, 101u8, 101u8, 112u8, 65u8, 110u8, 69u8, 121u8, 101u8, 79u8, 110u8]) == Some(seq![75u8, 101u8, 101u8, 112u8, 65u8, 110u8, 69u8, 121u8, 101u8, 79u8, 110u8]),
{
    lemma_procedure_literals();
}

#[verifier::rlimit(100)]
#[verifier::spinoff_prover]
proof fn lemma_procedure_names_6()
    ensures
        fo4_procedure_name(seq![76u8, 111u8, 99u8, 107u8, 68u8, 111u8, 111u8, 114u8, 115u8]) == Some(seq![76u8, 111u8, 99u8, 107u8, 68u8, 111u8, 111u8, 114u8, 115u8]),
        fo4_procedure_name(seq![85u8, 115u8, 101u8, 77u8, 97u8, 103u8, 105u8, 99u8]) == Some(seq![85u8, 115u8, 101u8, 77u8, 97u8, 103u8, 105u8, 99u8]),
        fo4_procedure_name(seq![65u8, 99u8, 113u8, 117u8, 105u8, 114u8, 101u8]) == Some(seq![65u8, 99u8, 113u8, 117u8, 105u8, 114u8, 101u8]),
        fo4_procedure_name(seq![70u8, 111u8, 108u8, 108u8, 111u8, 119u8, 84u8, 111u8]) == Some(seq![70u8, 111u8, 108u8, 108u8, 111u8, 119u8, 84u8, 111u8]),
{
    lemma_procedure_literals();
}

#[verifier::rlimit(100)]
#[verifier::spinoff_prover]
proof fn lemma_procedure_names_7()
    ensures
        fo4_procedure_name(seq![84u8, 114u8, 97u8, 118u8]) == Some(seq![84u8, 114u8, 97u8, 118u8, 101u8, 108u8]),
        fo4_procedure_name(seq![83u8, 97u8, 110u8, 100u8]) == Some(seq![83u8, 97u8, 110u8, 100u8, 98u8, 111u8, 120u8]),
        fo4_procedure_name(seq![70u8, 111u8, 108u8, 108u8]) == Some(seq![70u8, 111u8, 108u8, 108u8, 111u8, 119u8]),
        fo4_procedure_name(seq![80u8, 97u8, 116u8, 114u8]) == Some(seq![80u8, 97u8, 116u8, 114u8, 111u8, 108u8]),
{
    lemma_procedure_literals();
}

#[verifier::rlimit(100)]
#[verifier::spinoff_prover]
proof fn lemma_procedure_names_8()
    ensures
        fo4_procedure_name(seq![85u8, 115u8, 101u8, 87u8]) == Some(seq![85u8, 115u8, 101u8, 87u8, 101u8, 97u8, 112u8, 111u8, 110u8]),
        fo4_procedure_name(seq![82u8, 97u8, 110u8, 103u8]) == Some(seq![82u8, 97u8, 110u8, 103u8, 101u8]),
        fo4_procedure_name(seq![85u8, 110u8, 108u8, 111u8]) == Some(seq![85u8, 110u8, 108u8, 111u8, 99u8, 107u8, 68u8, 111u8, 111u8, 114u8, 115u8]),
        fo4_procedure_name(seq![65u8, 99u8, 116u8, 105u8]) == Some(seq![65u8, 99u8, 116u8, 105u8, 118u8, 97u8, 116u8, 101u8]),
{
    lemma_procedure_literals();
}

#[verifier::rlimit(100)]
#[verifier::spinoff_prover]
proof fn lemma_procedure_names_9()
    ensures
        fo4_procedure_name(seq![69u8, 115u8, 99u8, 111u8]) == Some(seq![69u8, 115u8, 99u8, 111u8, 114u8, 116u8]),
        fo4_procedure_name(seq![72u8, 111u8, 108u8, 100u8]) == Some(seq![72u8, 111u8, 108u8, 100u8, 80u8, 111u8, 115u8, 105u8, 116u8, 105u8, 111u8, 110u8]),
        fo4_procedure_name(seq![83u8, 108u8, 101u8, 101u8]) == Some(seq![83u8, 108u8, 101u8, 101u8, 112u8]),
        fo4_procedure_name(seq![71u8, 117u8, 97u8, 114u8]) == Some(seq![71u8, 117u8, 97u8, 114u8, 100u8]),
{
    lemma_procedure_literals();
}

#[verifier::rlimit(100)]
#[verifier::spinoff_prover]
proof fn lemma_procedure_names_10()
    ensures
        fo4_procedure_name(seq![83u8, 97u8, 121u8]) == Some(seq![70u8, 111u8, 114u8, 99u8, 101u8, 71u8, 114u8, 101u8, 101u8, 116u8]),
        fo4_procedure_name(seq![72u8, 101u8, 97u8, 100u8]) == Some(seq![72u8, 101u8, 97u8, 100u8, 116u8, 114u8, 97u8, 99u8, 107u8]),
        fo4_procedure_name(seq![79u8, 114u8, 98u8, 105u8]) == Some(seq![79u8, 114u8, 98u8, 105u8, 116u8]),
        fo4_procedure_name(seq![85u8, 115u8, 101u8, 73u8]) == Some(seq![85u8, 115u8, 101u8, 73u8, 100u8, 108u8, 101u8, 77u8, 97u8, 114u8, 107u8, 101u8, 114u8]),
{
    lemma_procedure_literals();
}

/// FO4's package procedures keep their own names, and each FO76 short code
/// names the FO4 procedure it abbreviates.
pub proof fn law_procedure_names()
    ensures
        fo4_procedure_name(seq![84u8, 114u8, 97u8, 118u8, 101u8, 108u8]) == Some(seq![84u8, 114u8, 97u8, 118u8, 101u8, 108u8]),
        fo4_procedure_name(seq![83u8, 97u8, 110u8, 100u8, 98u8, 111u8, 120u8]) == Some(seq![83u8, 97u8, 110u8, 100u8, 98u8, 111u8, 120u8]),
        fo4_procedure_name(seq![70u8, 111u8, 108u8, 108u8, 111u8, 119u8]) == Some(seq![70u8, 111u8, 108u8, 108u8, 111u8, 119u8]),
        fo4_procedure_name(seq![87u8, 97u8, 105u8, 116u8]) == Some(seq![87u8, 97u8, 105u8, 116u8]),
        fo4_procedure_name(seq![80u8, 97u8, 116u8, 114u8, 111u8, 108u8]) == Some(seq![80u8, 97u8, 116u8, 114u8, 111u8, 108u8]),
        fo4_procedure_name(seq![83u8, 105u8, 116u8]) == Some(seq![83u8, 105u8, 116u8]),
        fo4_procedure_name(seq![85u8, 115u8, 101u8, 87u8, 101u8, 97u8, 112u8, 111u8, 110u8]) == Some(seq![85u8, 115u8, 101u8, 87u8, 101u8, 97u8, 112u8, 111u8, 110u8]),
        fo4_procedure_name(seq![82u8, 97u8, 110u8, 103u8, 101u8]) == Some(seq![82u8, 97u8, 110u8, 103u8, 101u8]),
        fo4_procedure_name(seq![85u8, 110u8, 108u8, 111u8, 99u8, 107u8, 68u8, 111u8, 111u8, 114u8, 115u8]) == Some(seq![85u8, 110u8, 108u8, 111u8, 99u8, 107u8, 68u8, 111u8, 111u8, 114u8, 115u8]),
        fo4_procedure_name(seq![65u8, 99u8, 116u8, 105u8, 118u8, 97u8, 116u8, 101u8]) == Some(seq![65u8, 99u8, 116u8, 105u8, 118u8, 97u8, 116u8, 101u8]),
        fo4_procedure_name(seq![70u8, 105u8, 110u8, 100u8]) == Some(seq![70u8, 105u8, 110u8, 100u8]),
        fo4_procedure_name(seq![69u8, 115u8, 99u8, 111u8, 114u8, 116u8]) == Some(seq![69u8, 115u8, 99u8, 111u8, 114u8, 116u8]),
        fo4_procedure_name(seq![72u8, 111u8, 108u8, 100u8, 80u8, 111u8, 115u8, 105u8, 116u8, 105u8, 111u8, 110u8]) == Some(seq![72u8, 111u8, 108u8, 100u8, 80u8, 111u8, 115u8, 105u8, 116u8, 105u8, 111u8, 110u8]),
        fo4_procedure_name(seq![83u8, 108u8, 101u8, 101u8, 112u8]) == Some(seq![83u8, 108u8, 101u8, 101u8, 112u8]),
        fo4_procedure_name(seq![71u8, 117u8, 97u8, 114u8, 100u8]) == Some(seq![71u8, 117u8, 97u8, 114u8, 100u8]),
        fo4_procedure_name(seq![69u8, 97u8, 116u8]) == Some(seq![69u8, 97u8, 116u8]),
        fo4_procedure_name(seq![70u8, 111u8, 114u8, 99u8, 101u8, 71u8, 114u8, 101u8, 101u8, 116u8]) == Some(seq![70u8, 111u8, 114u8, 99u8, 101u8, 71u8, 114u8, 101u8, 101u8, 116u8]),
        fo4_procedure_name(seq![70u8, 108u8, 101u8, 101u8]) == Some(seq![70u8, 108u8, 101u8, 101u8]),
        fo4_procedure_name(seq![72u8, 101u8, 97u8, 100u8, 116u8, 114u8, 97u8, 99u8, 107u8]) == Some(seq![72u8, 101u8, 97u8, 100u8, 116u8, 114u8, 97u8, 99u8, 107u8]),
        fo4_procedure_name(seq![79u8, 114u8, 98u8, 105u8, 116u8]) == Some(seq![79u8, 114u8, 98u8, 105u8, 116u8]),
        fo4_procedure_name(seq![85u8, 115u8, 101u8, 73u8, 100u8, 108u8, 101u8, 77u8, 97u8, 114u8, 107u8, 101u8, 114u8]) == Some(seq![85u8, 115u8, 101u8, 73u8, 100u8, 108u8, 101u8, 77u8, 97u8, 114u8, 107u8, 101u8, 114u8]),
        fo4_procedure_name(seq![71u8, 117u8, 97u8, 114u8, 100u8, 65u8, 114u8, 101u8, 97u8]) == Some(seq![71u8, 117u8, 97u8, 114u8, 100u8, 65u8, 114u8, 101u8, 97u8]),
        fo4_procedure_name(seq![72u8, 111u8, 118u8, 101u8, 114u8]) == Some(seq![72u8, 111u8, 118u8, 101u8, 114u8]),
        fo4_procedure_name(seq![75u8, 101u8, 101u8, 112u8, 65u8, 110u8, 69u8, 121u8, 101u8, 79u8, 110u8]) == Some(seq![75u8, 101u8, 101u8, 112u8, 65u8, 110u8, 69u8, 121u8, 101u8, 79u8, 110u8]),
        fo4_procedure_name(seq![76u8, 111u8, 99u8, 107u8, 68u8, 111u8, 111u8, 114u8, 115u8]) == Some(seq![76u8, 111u8, 99u8, 107u8, 68u8, 111u8, 111u8, 114u8, 115u8]),
        fo4_procedure_name(seq![85u8, 115u8, 101u8, 77u8, 97u8, 103u8, 105u8, 99u8]) == Some(seq![85u8, 115u8, 101u8, 77u8, 97u8, 103u8, 105u8, 99u8]),
        fo4_procedure_name(seq![65u8, 99u8, 113u8, 117u8, 105u8, 114u8, 101u8]) == Some(seq![65u8, 99u8, 113u8, 117u8, 105u8, 114u8, 101u8]),
        fo4_procedure_name(seq![70u8, 111u8, 108u8, 108u8, 111u8, 119u8, 84u8, 111u8]) == Some(seq![70u8, 111u8, 108u8, 108u8, 111u8, 119u8, 84u8, 111u8]),
        fo4_procedure_name(seq![84u8, 114u8, 97u8, 118u8]) == Some(seq![84u8, 114u8, 97u8, 118u8, 101u8, 108u8]),
        fo4_procedure_name(seq![83u8, 97u8, 110u8, 100u8]) == Some(seq![83u8, 97u8, 110u8, 100u8, 98u8, 111u8, 120u8]),
        fo4_procedure_name(seq![70u8, 111u8, 108u8, 108u8]) == Some(seq![70u8, 111u8, 108u8, 108u8, 111u8, 119u8]),
        fo4_procedure_name(seq![80u8, 97u8, 116u8, 114u8]) == Some(seq![80u8, 97u8, 116u8, 114u8, 111u8, 108u8]),
        fo4_procedure_name(seq![85u8, 115u8, 101u8, 87u8]) == Some(seq![85u8, 115u8, 101u8, 87u8, 101u8, 97u8, 112u8, 111u8, 110u8]),
        fo4_procedure_name(seq![82u8, 97u8, 110u8, 103u8]) == Some(seq![82u8, 97u8, 110u8, 103u8, 101u8]),
        fo4_procedure_name(seq![85u8, 110u8, 108u8, 111u8]) == Some(seq![85u8, 110u8, 108u8, 111u8, 99u8, 107u8, 68u8, 111u8, 111u8, 114u8, 115u8]),
        fo4_procedure_name(seq![65u8, 99u8, 116u8, 105u8]) == Some(seq![65u8, 99u8, 116u8, 105u8, 118u8, 97u8, 116u8, 101u8]),
        fo4_procedure_name(seq![69u8, 115u8, 99u8, 111u8]) == Some(seq![69u8, 115u8, 99u8, 111u8, 114u8, 116u8]),
        fo4_procedure_name(seq![72u8, 111u8, 108u8, 100u8]) == Some(seq![72u8, 111u8, 108u8, 100u8, 80u8, 111u8, 115u8, 105u8, 116u8, 105u8, 111u8, 110u8]),
        fo4_procedure_name(seq![83u8, 108u8, 101u8, 101u8]) == Some(seq![83u8, 108u8, 101u8, 101u8, 112u8]),
        fo4_procedure_name(seq![71u8, 117u8, 97u8, 114u8]) == Some(seq![71u8, 117u8, 97u8, 114u8, 100u8]),
        fo4_procedure_name(seq![83u8, 97u8, 121u8]) == Some(seq![70u8, 111u8, 114u8, 99u8, 101u8, 71u8, 114u8, 101u8, 101u8, 116u8]),
        fo4_procedure_name(seq![72u8, 101u8, 97u8, 100u8]) == Some(seq![72u8, 101u8, 97u8, 100u8, 116u8, 114u8, 97u8, 99u8, 107u8]),
        fo4_procedure_name(seq![79u8, 114u8, 98u8, 105u8]) == Some(seq![79u8, 114u8, 98u8, 105u8, 116u8]),
        fo4_procedure_name(seq![85u8, 115u8, 101u8, 73u8]) == Some(seq![85u8, 115u8, 101u8, 73u8, 100u8, 108u8, 101u8, 77u8, 97u8, 114u8, 107u8, 101u8, 114u8]),
{
    lemma_procedure_names_0();
    lemma_procedure_names_1();
    lemma_procedure_names_2();
    lemma_procedure_names_3();
    lemma_procedure_names_4();
    lemma_procedure_names_5();
    lemma_procedure_names_6();
    lemma_procedure_names_7();
    lemma_procedure_names_8();
    lemma_procedure_names_9();
    lemma_procedure_names_10();
}

} // verus!
