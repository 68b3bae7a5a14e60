//! Locating subrecords by code inside a record's field list.
use vstd::prelude::*;
use crate::model::{EntryView, FieldEntry, entries_view, same_code};

verus! {

/// The index of the first entry satisfying `p`, if any.
pub open spec fn first_where(fields: Seq<EntryView>, p: spec_fn(EntryView) -> bool) -> Option<int>
    decreases fields.len(),
{
    if fields.len() == 0 {
        None
    } else if p(fields[0]) {
        Some(0)
    } else {
        match first_where(fields.drop_first(), p) {
            Some(i) => Some(i + 1),
            None => None,
        }
    }
}

/// The index of the first entry with code `sig`, if any.
pub open spec fn first_with_sig(fields: Seq<EntryView>, sig: [u8; 4]) -> Option<int> {
    first_where(fields, |e: EntryView| e.sig == sig)
}

/// Whether some entry has code `sig`.
pub open spec fn has_sig(fields: Seq<EntryView>, sig: [u8; 4]) -> bool {
    exists|j: int| 0 <= j < fields.len() && #[trigger] fields[j].sig == sig
}

pub proof fn lemma_first_where_none(fields: Seq<EntryView>, p: spec_fn(EntryView) -> bool)
    ensures
        first_where(fields, p) is None ==> forall|j: int| 0 <= j < fields.len() ==> !p(#[trigger] fields[j]),
    decreases fields.len(),
{
    if fields.len() > 0 && !p(fields[0]) {
        let rest = fields.drop_first();
        lemma_first_where_none(rest, p);
        assert forall|j: int| 0 < j < fields.len() && first_where(fields, p) is None implies !p(#[trigger] fields[j]) by {
            assert(fields[j] == rest[j - 1]);
        }
    }
}

pub proof fn lemma_first_where(fields: Seq<EntryView>, p: spec_fn(EntryView) -> bool, i: int)
    requires
        0 <= i <= fields.len(),
        forall|j: int| 0 <= j < i ==> !p(fields[j]),
        i < fields.len() ==> p(fields[i]),
    ensures
        i < fields.len() ==> first_where(fields, p) == Some(i),
        i == fields.len() ==> first_where(fields, p) is None,
    decreases fields.len(),
{
    if fields.len() > 0 && i > 0 {
        let rest = fields.drop_first();
        assert forall|j: int| 0 <= j < i - 1 implies !p(rest[j]) by {
            assert(rest[j] == fields[j + 1]);
        }
        assert(!p(fields[0]));
        lemma_first_where(rest, p, i - 1);
    }
}

pub proof fn lemma_first_with_sig(fields: Seq<EntryView>, sig: [u8; 4], i: int)
    requires
        0 <= i <= fields.len(),
        forall|j: int| 0 <= j < i ==> fields[j].sig != sig,
        i < fields.len() ==> fields[i].sig == sig,
    ensures
        i < fields.len() ==> first_with_sig(fields, sig) == Some(i),
        i == fields.len() ==> first_with_sig(fields, sig) is None,
        has_sig(fields, sig) <==> i < fields.len(),
{
    let p = |e: EntryView| e.sig == sig;
    lemma_first_where(fields, p, i);
    if has_sig(fields, sig) {
        let j = choose|j: int| 0 <= j < fields.len() && #[trigger] fields[j].sig == sig;
        if i == fields.len() {
            assert(fields[j].sig != sig);
        }
    }
    if i < fields.len() {
        assert(fields[i].sig == sig);
    }
}

/// The index `first_where` gives is within the sequence.
pub proof fn lemma_first_where_bounds(fields: Seq<EntryView>, p: spec_fn(EntryView) -> bool)
    ensures
        first_where(fields, p) matches Some(i) ==> 0 <= i < fields.len() && p(fields[i]),
        first_where(fields, p) matches Some(i) ==> forall|j: int| 0 <= j < i ==> !p(#[trigger] fields[j]),
    decreases fields.len(),
{
    if fields.len() > 0 && !p(fields[0]) {
        let rest = fields.drop_first();
        lemma_first_where_bounds(rest, p);
        if let Some(i) = first_where(rest, p) {
            assert(fields[i + 1] == rest[i]);
            assert forall|j: int| 0 <= j < i + 1 implies !p(#[trigger] fields[j]) by {
                if j > 0 {
                    assert(fields[j] == rest[j - 1]);
                }
            }
        }
    }
}

/// Extending a prefix by one entry: the code occurs in the longer prefix
/// exactly when it occurs in the shorter one or is the new entry's code.
pub proof fn lemma_has_sig_take(fields: Seq<EntryView>, sig: [u8; 4], i: int)
    requires
        0 <= i < fields.len(),
    ensures
        has_sig(fields.take(i + 1), sig) == (has_sig(fields.take(i), sig) || fields[i].sig == sig),
{
    let a = fields.take(i);
    let b = fields.take(i + 1);
    if has_sig(a, sig) {
        let j = choose|j: int| 0 <= j < a.len() && #[trigger] a[j].sig == sig;
        assert(b[j] == a[j]);
    }
    if fields[i].sig == sig {
        assert(b[i] == fields[i]);
    }
    if has_sig(b, sig) {
        let j = choose|j: int| 0 <= j < b.len() && #[trigger] b[j].sig == sig;
        if j < i {
            assert(a[j] == b[j]);
        }
    }
}

/// The index of the first entry with code `sig`, if any.
pub fn find_sig(fields: &Vec<FieldEntry>, sig: [u8; 4]) -> (r: Option<usize>)
    ensures
        r matches Some(i) ==> first_with_sig(entries_view(fields@), sig) == Some(i as int) && i
            < fields@.len() && fields@[i as int].sig.0 == sig,
        r is None ==> first_with_sig(entries_view(fields@), sig) is None,
        r is Some <==> has_sig(entries_view(fields@), sig),
{
    let ghost v = entries_view(fields@);
    let mut i: usize = 0;
    while i < fields.len()
        invariant
            i <= fields.len(),
            v == entries_view(fields@),
            forall|j: int| 0 <= j < i ==> v[j].sig != sig,
        decreases fields.len() - i,
    {
        if same_code(fields[i].sig.0, sig) {
            proof {
                lemma_first_with_sig(v, sig, i as int);
            }
            return Some(i);
        }
        i = i + 1;
    }
    proof {
        lemma_first_with_sig(v, sig, i as int);
    }
    None
}

/// Whether some entry has code `sig`.
pub fn any_sig(fields: &Vec<FieldEntry>, sig: [u8; 4]) -> (r: bool)
    ensures
        r == has_sig(entries_view(fields@), sig),
{
    find_sig(fields, sig).is_some()
}

/// The model of concatenated entries is the concatenation of models.
pub proof fn lemma_entries_view_add(a: Seq<FieldEntry>, b: Seq<FieldEntry>)
    ensures
        entries_view(a + b) == entries_view(a) + entries_view(b),
{
    assert(entries_view(a + b) =~= entries_view(a) + entries_view(b));
}

/// Move every entry of `more` to the end of `out`.
pub fn append_entries(out: &mut Vec<FieldEntry>, more: &mut Vec<FieldEntry>)
    ensures
        entries_view(final(out)@) == entries_view(old(out)@) + entries_view(old(more)@),
        final(more)@.len() == 0,
{
    let ghost a = out@;
    let ghost b = more@;
    out.append(more);
    proof {
        lemma_entries_view_add(a, b);
    }
}

/// Add an entry at the end of `out`.
pub fn push_entry(out: &mut Vec<FieldEntry>, e: FieldEntry)
    ensures
        entries_view(final(out)@) == entries_view(old(out)@).push(e@),
{
    let ghost a = entries_view(out@);
    let ghost ev = e@;
    out.push(e);
    assert(entries_view(out@) =~= a.push(ev));
}

} // verus!
