//! Keeping a chosen subset of a record's entries, in order.
use vstd::prelude::*;
use crate::model::{entries_view, EntryView, FieldEntry};

verus! {

/// The entries whose flag in `keep` is set, in order.
pub open spec fn kept(s: Seq<EntryView>, keep: Seq<bool>) -> Seq<EntryView>
    decreases s.len(),
{
    if s.len() == 0 {
        Seq::empty()
    } else if keep[s.len() - 1] {
        kept(s.drop_last(), keep).push(s.last())
    } else {
        kept(s.drop_last(), keep)
    }
}

proof fn lemma_kept_prefix(s: Seq<EntryView>, keep: Seq<bool>, i: int)
    requires
        0 <= i < s.len(),
    ensures
        kept(s.take(i + 1), keep) == if keep[i] {
            kept(s.take(i), keep).push(s[i])
        } else {
            kept(s.take(i), keep)
        },
{
    assert(s.take(i + 1).drop_last() =~= s.take(i));
}

/// Keeping by a mask equals filtering by a predicate the mask agrees with.
pub proof fn lemma_kept_filter(s: Seq<EntryView>, keep: Seq<bool>, p: spec_fn(EntryView) -> bool)
    requires
        keep.len() == s.len(),
        forall|i: int| 0 <= i < s.len() ==> keep[i] == p(#[trigger] s[i]),
    ensures
        kept(s, keep) == s.filter(p),
{
    lemma_kept_filter_prefix(s, keep, p);
}

proof fn lemma_kept_filter_prefix(s: Seq<EntryView>, keep: Seq<bool>, p: spec_fn(EntryView) -> bool)
    requires
        keep.len() >= s.len(),
        forall|i: int| 0 <= i < s.len() ==> keep[i] == p(#[trigger] s[i]),
    ensures
        kept(s, keep) == s.filter(p),
    decreases s.len(),
{
    reveal(Seq::filter);
    if s.len() > 0 {
        let t = s.drop_last();
        assert forall|i: int| 0 <= i < t.len() implies keep[i] == p(#[trigger] t[i]) by {
            assert(t[i] == s[i]);
        }
        lemma_kept_filter_prefix(t, keep, p);
        assert(keep[s.len() - 1] == p(s[s.len() - 1]));
        assert(s.last() == s[s.len() - 1]);
        reveal(Seq::filter);
        assert(s.filter(p) == if p(s.last()) {
            t.filter(p).push(s.last())
        } else {
            t.filter(p)
        });
    }
}

/// Keep, in order, the entries whose flag in `keep` is set.
pub fn retain_entries(fields: &mut Vec<FieldEntry>, keep: &Vec<bool>)
    requires
        keep@.len() == old(fields)@.len(),
    ensures
        entries_view(final(fields)@) == kept(entries_view(old(fields)@), keep@),
{
    let ghost orig = entries_view(fields@);
    let mut rest: Vec<FieldEntry> = Vec::new();
    core::mem::swap(fields, &mut rest);
    let n = rest.len();
    let mut idx: usize = 0;
    while idx < n
        invariant
            n == keep@.len(),
            orig.len() == n,
            idx <= n,
            rest@.len() == n - idx,
            forall|j: int| 0 <= j < rest@.len() ==> rest@[j]@ == orig[idx + j],
            entries_view(fields@) == kept(orig.take(idx as int), keep@),
        decreases n - idx,
    {
        let e = rest.remove(0);
        proof {
            lemma_kept_prefix(orig, keep@, idx as int);
            assert(e@ == orig[idx as int]);
        }
        if keep[idx] {
            let ghost before = entries_view(fields@);
            fields.push(e);
            assert(entries_view(fields@) =~= before.push(e@));
        }
        idx = idx + 1;
    }
    assert(orig.take(n as int) =~= orig);
}

} // verus!

verus! {

/// Keep, in order, the entries for which `f` holds; `f` decides exactly the
/// predicate `p`.
pub fn retain_where<F: Fn(&FieldEntry) -> bool>(
    fields: &mut Vec<FieldEntry>,
    f: F,
    Ghost(p): Ghost<spec_fn(EntryView) -> bool>,
)
    requires
        forall|e: &FieldEntry| #[trigger] f.requires((e,)),
        forall|e: &FieldEntry, b: bool| f.ensures((e,), b) ==> b == p(e@),
    ensures
        entries_view(final(fields)@) == entries_view(old(fields)@).filter(p),
{
    let ghost v = entries_view(fields@);
    let mut keep: Vec<bool> = Vec::new();
    let mut i: usize = 0;
    while i < fields.len()
        invariant
            i <= fields@.len(),
            v == entries_view(fields@),
            *fields == *old(fields),
            keep@.len() == i,
            forall|j: int| 0 <= j < i ==> keep@[j] == p(#[trigger] v[j]),
            forall|e: &FieldEntry| #[trigger] f.requires((e,)),
            forall|e: &FieldEntry, b: bool| f.ensures((e,), b) ==> b == p(e@),
        decreases fields@.len() - i,
    {
        let b = f(&fields[i]);
        keep.push(b);
        i = i + 1;
    }
    retain_entries(fields, &keep);
    proof {
        lemma_kept_filter(v, keep@, p);
    }
}

} // verus!

verus! {

/// Replace every entry by `f` of it, in order; `f` computes exactly `g` on
/// models.
pub fn map_entries<F: Fn(FieldEntry) -> FieldEntry>(
    fields: &mut Vec<FieldEntry>,
    f: F,
    Ghost(g): Ghost<spec_fn(EntryView) -> EntryView>,
)
    requires
        forall|e: FieldEntry| #[trigger] f.requires((e,)),
        forall|e: FieldEntry, r: FieldEntry| f.ensures((e,), r) ==> r@ == g(e@),
    ensures
        entries_view(final(fields)@) == entries_view(old(fields)@).map_values(g),
{
    let ghost orig = entries_view(fields@);
    let mut rest: Vec<FieldEntry> = Vec::new();
    core::mem::swap(fields, &mut rest);
    let n = rest.len();
    let mut idx: usize = 0;
    while idx < n
        invariant
            orig.len() == n,
            idx <= n,
            rest@.len() == n - idx,
            forall|j: int| 0 <= j < rest@.len() ==> rest@[j]@ == orig[idx + j],
            entries_view(fields@) == orig.take(idx as int).map_values(g),
            forall|e: FieldEntry| #[trigger] f.requires((e,)),
            forall|e: FieldEntry, r: FieldEntry| f.ensures((e,), r) ==> r@ == g(e@),
        decreases n - idx,
    {
        let e = rest.remove(0);
        let ghost ev = e@;
        let m = f(e);
        let ghost before = entries_view(fields@);
        fields.push(m);
        assert(entries_view(fields@) =~= before.push(m@));
        assert(orig.take(idx + 1).map_values(g) =~= orig.take(idx as int).map_values(g).push(
            g(orig[idx as int]),
        ));
        idx = idx + 1;
    }
    assert(orig.take(n as int) =~= orig);
}

} // verus!

verus! {

/// How many entries satisfy `p`; `f` decides exactly `p`.
pub fn count_where<F: Fn(&FieldEntry) -> bool>(
    fields: &Vec<FieldEntry>,
    f: F,
    Ghost(p): Ghost<spec_fn(EntryView) -> bool>,
) -> (r: usize)
    requires
        forall|e: &FieldEntry| #[trigger] f.requires((e,)),
        forall|e: &FieldEntry, b: bool| f.ensures((e,), b) ==> b == p(e@),
    ensures
        r == entries_view(fields@).filter(p).len(),
{
    let ghost v = entries_view(fields@);
    let mut count: usize = 0;
    let mut i: usize = 0;
    while i < fields.len()
        invariant
            i <= fields@.len(),
            v == entries_view(fields@),
            count == v.take(i as int).filter(p).len(),
            count <= i,
            forall|e: &FieldEntry| #[trigger] f.requires((e,)),
            forall|e: &FieldEntry, b: bool| f.ensures((e,), b) ==> b == p(e@),
        decreases fields@.len() - i,
    {
        proof {
            reveal(Seq::filter);
            assert(v.take(i + 1).drop_last() =~= v.take(i as int));
            assert(v.take(i + 1).last() == v[i as int]);
        }
        if f(&fields[i]) {
            count = count + 1;
        }
        i = i + 1;
    }
    assert(v.take(i as int) =~= v);
    count
}

} // verus!
