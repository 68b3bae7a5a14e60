//! Cell combined-reference indexes (`XCRI`): FO76 uses 64-bit counts and
//! wider rows; FO4 keeps 32-bit counts, four-byte mesh rows and eight-byte
//! reference rows. An index that cannot be read is dropped.
use vstd::prelude::*;
use crate::text::{intern_all, intern_each, strs_bytes};
use crate::text::name_handle;
use vstd::string::StringSliceAdditionalSpecFns;
use crate::bytes::{le32, le64, read_u32_le, read_u64_le, u32_bytes};
use crate::effects::Fo76Fo4Hook;
use crate::fields::{push_entry};
use crate::furniture::projected_rows;
use crate::model::{code, copy_bytes, entries_view, lemma_list_view, lemma_struct_view, named_view, sig_is,
    values_view, EntryView, FieldEntry, FieldValue, FieldView, Record, RecordView, Sym};
use crate::names::{exact_value, named_value};
use crate::text::{handle_of, lemma_handle_of, lit, StringInterner};
use crate::values::{project_formid_value, project_u32_value, projected_formid, projected_u32, u32_le_vec};

verus! {

/// The size an index would have in FO4's layout, read from its first eight
/// bytes as two 32-bit counts; `None` when shorter or the size does not fit.
pub open spec fn fo4_xcri_size(b: Seq<u8>) -> Option<int> {
    if b.len() < 8 {
        None
    } else {
        let size = 8 + le32(b, 0) * 4 + le32(b, 4) * 8;
        if size <= usize::MAX { Some(size) } else { None }
    }
}

/// Sixteen-byte reference rows cut to their reference (bytes 0..4) and mesh
/// (bytes 8..12).
pub open spec fn reference_rows(s: Seq<u8>) -> Seq<u8>
    decreases s.len(),
{
    if s.len() < 16 {
        Seq::empty()
    } else {
        s.take(4) + s.subrange(8, 12) + reference_rows(s.skip(16))
    }
}

/// A raw index in FO4's layout: one already in it is kept; a FO76 one with
/// 64-bit counts that fit 32 bits and exactly the rows they announce is
/// re-encoded; anything else is unreadable.
pub open spec fn xcri_raw_fo4(b: Seq<u8>) -> Option<Seq<u8>> {
    match fo4_xcri_size(b) {
        None => None,
        Some(size) => if size == b.len() {
            Some(b)
        } else if b.len() < 16 {
            None
        } else {
            let m = le64(b, 0);
            let r = le64(b, 8);
            if m > u32::MAX || r > u32::MAX {
                None
            } else {
                let rs = 16 + m * 8;
                if b.len() != rs + r * 16 {
                    None
                } else {
                    Some(u32_bytes(m as u32) + u32_bytes(r as u32) + projected_rows(b.subrange(16, rs), 8, 4)
                        + reference_rows(b.subrange(rs, b.len() as int)))
                }
            }
        },
    }
}

/// The size an index would have in FO4's layout.
pub fn cell_xcri_fo4_raw_size(bytes: &[u8]) -> (r: Option<usize>)
    ensures
        r matches Some(n) ==> fo4_xcri_size(bytes@) == Some(n as int),
        r is None ==> fo4_xcri_size(bytes@) is None,
{
    if bytes.len() < 8 {
        return None;
    }
    let m = read_u32_le(bytes, 0) as u64;
    let r = read_u32_le(bytes, 4) as u64;
    let size: u64 = 8 + m * 4 + r * 8;
    if size <= usize::MAX as u64 {
        Some(size as usize)
    } else {
        None
    }
}

fn copy_range(out: &mut Vec<u8>, b: &[u8], from: usize, to: usize)
    requires
        from <= to <= b@.len(),
    ensures
        final(out)@ == old(out)@ + b@.subrange(from as int, to as int),
{
    let ghost o0 = out@;
    let mut i: usize = from;
    while i < to
        invariant
            from <= i <= to <= b@.len(),
            out@ == o0 + b@.subrange(from as int, i as int),
        decreases to - i,
    {
        out.push(b[i]);
        i = i + 1;
        assert(out@ =~= o0 + b@.subrange(from as int, i as int));
    }
}

fn append_mesh_rows(out: &mut Vec<u8>, bytes: &[u8], from: usize, to: usize)
    requires
        from <= to <= bytes@.len(),
    ensures
        final(out)@ == old(out)@ + projected_rows(bytes@.subrange(from as int, to as int), 8, 4),
{
    let ghost b = bytes@;
    let ghost head = out@;
    let ghost all = b.subrange(from as int, to as int);
    let mut off: usize = from;
    assert(out@ + projected_rows(b.subrange(off as int, to as int), 8, 4) =~= head + projected_rows(all, 8, 4));
    while off <= to && to - off >= 8
        invariant
            bytes@ == b,
            from <= off <= to <= b.len(),
            all == b.subrange(from as int, to as int),
            out@ + projected_rows(b.subrange(off as int, to as int), 8, 4) == head + projected_rows(all, 8, 4),
        decreases to - off,
    {
        let ghost o0 = out@;
        let ghost rest = b.subrange(off as int, to as int);
        copy_range(out, bytes, off, off + 4);
        assert(rest.take(4) =~= b.subrange(off as int, off + 4));
        assert(rest.skip(8) =~= b.subrange(off + 8, to as int));
        assert(out@ + projected_rows(b.subrange(off + 8, to as int), 8, 4) =~= o0 + projected_rows(rest, 8, 4));
        off = off + 8;
    }
    assert(projected_rows(b.subrange(off as int, to as int), 8, 4) =~= Seq::<u8>::empty());
    assert(out@ =~= head + projected_rows(all, 8, 4));
}

fn append_reference_rows(out: &mut Vec<u8>, bytes: &[u8], from: usize, to: usize)
    requires
        from <= to <= bytes@.len(),
    ensures
        final(out)@ == old(out)@ + reference_rows(bytes@.subrange(from as int, to as int)),
{
    let ghost b = bytes@;
    let ghost head = out@;
    let ghost all = b.subrange(from as int, to as int);
    let mut off: usize = from;
    assert(out@ + reference_rows(b.subrange(off as int, to as int)) =~= head + reference_rows(all));
    while off <= to && to - off >= 16
        invariant
            bytes@ == b,
            from <= off <= to <= b.len(),
            all == b.subrange(from as int, to as int),
            out@ + reference_rows(b.subrange(off as int, to as int)) == head + reference_rows(all),
        decreases to - off,
    {
        let ghost o0 = out@;
        let ghost rest = b.subrange(off as int, to as int);
        copy_range(out, bytes, off, off + 4);
        copy_range(out, bytes, off + 8, off + 12);
        assert(rest.take(4) =~= b.subrange(off as int, off + 4));
        assert(rest.subrange(8, 12) =~= b.subrange(off + 8, off + 12));
        assert(rest.skip(16) =~= b.subrange(off + 16, to as int));
        assert(out@ + reference_rows(b.subrange(off + 16, to as int)) =~= o0 + reference_rows(rest));
        off = off + 16;
    }
    assert(reference_rows(b.subrange(off as int, to as int)) =~= Seq::<u8>::empty());
    assert(out@ =~= head + reference_rows(all));
}

/// A raw index re-encoded in FO4's layout, or `None` when unreadable.
pub fn convert_cell_xcri_raw_to_fo4(bytes: &[u8]) -> (r: Option<Vec<u8>>)
    ensures
        r is None <==> xcri_raw_fo4(bytes@) is None,
        r matches Some(v) ==> xcri_raw_fo4(bytes@) == Some(v@),
{
    let size = match cell_xcri_fo4_raw_size(bytes) {
        Some(s) => s,
        None => {
            return None;
        },
    };
    if size == bytes.len() {
        return Some(copy_bytes(bytes));
    }
    if bytes.len() < 16 {
        return None;
    }
    let m = read_u64_le(bytes, 0);
    let r = read_u64_le(bytes, 8);
    if m > 0xffff_ffff || r > 0xffff_ffff {
        return None;
    }
    let rs: u64 = 16 + m * 8;
    let expected: u64 = rs + r * 16;
    if bytes.len() as u64 != expected {
        return None;
    }
    let rs = rs as usize;
    let n = bytes.len();
    let mut out = u32_le_vec(m as u32);
    let mut rb = u32_le_vec(r as u32);
    out.append(&mut rb);
    append_mesh_rows(&mut out, bytes, 16, rs);
    append_reference_rows(&mut out, bytes, rs, n);
    Some(out)
}


/// A mesh row projected to FO4's four bytes: a struct's `combined_mesh`, a
/// raw row's first four bytes, or an integer.
pub open spec fn mesh_projected(interner: StringInterner, v: FieldView) -> Option<FieldView> {
    match v {
        FieldView::Struct(f) => match exact_value(interner, f, "combined_mesh".spec_bytes()) {
            Some(c) => projected_u32(c),
            None => None,
        },
        FieldView::Bytes(b) => if b.len() >= 4 { Some(FieldView::Bytes(b.take(4))) } else { None },
        FieldView::Uint(_) => projected_u32(v),
        FieldView::Int(_) => projected_u32(v),
        _ => None,
    }
}

/// A reference row projected to FO4's `reference` and `combined_mesh`.
pub open spec fn reference_projected(interner: StringInterner, held: Seq<Seq<u8>>, v: FieldView) -> Option<FieldView> {
    let rk = handle_of(held, "reference".spec_bytes());
    let ck = handle_of(held, "combined_mesh".spec_bytes());
    match v {
        FieldView::Struct(f) => match (exact_value(interner, f, "reference".spec_bytes()), exact_value(
            interner,
            f,
            "combined_mesh".spec_bytes(),
        )) {
            (Some(r), Some(c)) => match (projected_formid(r), projected_u32(c)) {
                (Some(pr), Some(pc)) => Some(FieldView::Struct(seq![(rk, pr), (ck, pc)])),
                _ => None,
            },
            _ => None,
        },
        FieldView::Bytes(b) => if b.len() >= 16 {
            Some(FieldView::Struct(seq![(rk, FieldView::Bytes(b.take(4))), (ck, FieldView::Bytes(b.subrange(8, 12)))]))
        } else if b.len() >= 8 {
            Some(FieldView::Struct(seq![(rk, FieldView::Bytes(b.take(4))), (ck, FieldView::Bytes(b.subrange(4, 8)))]))
        } else {
            None
        },
        _ => None,
    }
}

/// Every item projected, or `None` when one cannot be.
pub open spec fn all_projected(interner: StringInterner, held: Seq<Seq<u8>>, items: Seq<FieldView>, mesh: bool) -> Option<Seq<FieldView>>
    decreases items.len(),
{
    if items.len() == 0 {
        Some(Seq::empty())
    } else {
        match all_projected(interner, held, items.drop_last(), mesh) {
            None => None,
            Some(prev) => match if mesh { mesh_projected(interner, items.last()) } else { reference_projected(interner, held, items.last()) } {
                Some(p) => Some(prev.push(p)),
                None => None,
            },
        }
    }
}

/// The rows of member `name`: a list projected, nothing when absent, and
/// unreadable (`None`) for any other value.
pub open spec fn member_rows(interner: StringInterner, held: Seq<Seq<u8>>, f: Seq<(Sym, FieldView)>, name: Seq<u8>, mesh: bool) -> Option<Seq<FieldView>> {
    match exact_value(interner, f, name) {
        Some(FieldView::List(items)) => all_projected(interner, held, items, mesh),
        Some(_) => None,
        None => Some(Seq::empty()),
    }
}

/// A structured index in FO4's shape: counts, meshes and references
/// rebuilt from its rows; `None` when it has none of the four members or a
/// row cannot be read.
pub open spec fn xcri_struct_fo4(interner: StringInterner, held: Seq<Seq<u8>>, f: Seq<(Sym, FieldView)>) -> Option<FieldView> {
    if exact_value(interner, f, "meshes_count".spec_bytes()) is None && exact_value(interner, f, "references_count".spec_bytes()) is None
        && exact_value(interner, f, "meshes".spec_bytes()) is None && exact_value(interner, f, "references".spec_bytes()) is None {
        None
    } else {
        match (member_rows(interner, held, f, "meshes".spec_bytes(), true), member_rows(interner, held, f, "references".spec_bytes(), false)) {
            (Some(m), Some(r)) => Some(FieldView::Struct(seq![
                (handle_of(held, "meshes_count".spec_bytes()), FieldView::Uint(m.len() as u64)),
                (handle_of(held, "references_count".spec_bytes()), FieldView::Uint(r.len() as u64)),
                (handle_of(held, "meshes".spec_bytes()), FieldView::List(m)),
                (handle_of(held, "references".spec_bytes()), FieldView::List(r)),
            ])),
            _ => None,
        }
    }
}

/// An index value in FO4's layout, raw or structured.
pub open spec fn xcri_fo4(interner: StringInterner, v: FieldView) -> Option<FieldView> {
    match v {
        FieldView::Bytes(b) => match xcri_raw_fo4(b) {
            Some(o) => Some(FieldView::Bytes(o)),
            None => None,
        },
        FieldView::Struct(f) => xcri_struct_fo4(interner, interner@, f),
        _ => None,
    }
}

/// Whether the interner holds the names of FO4's index shape.
pub open spec fn holds_xcri_names(held: Seq<Seq<u8>>) -> bool {
    &&& held.contains("meshes_count".spec_bytes())
    &&& held.contains("references_count".spec_bytes())
    &&& held.contains("meshes".spec_bytes())
    &&& held.contains("references".spec_bytes())
    &&& held.contains("reference".spec_bytes())
    &&& held.contains("combined_mesh".spec_bytes())
}


fn take_bytes(b: &Vec<u8>, from: usize, to: usize) -> (r: FieldValue)
    requires
        from <= to <= b@.len(),
    ensures
        r@ == FieldView::Bytes(b@.subrange(from as int, to as int)),
{
    let mut out: Vec<u8> = Vec::new();
    copy_range(&mut out, b.as_slice(), from, to);
    assert(out@ =~= b@.subrange(from as int, to as int));
    FieldValue::Bytes(out)
}

/// A mesh row projected to FO4's four bytes.
pub fn project_cell_xcri_mesh(value: &FieldValue, interner: &StringInterner) -> (r: Option<FieldValue>)
    ensures
        r is None <==> mesh_projected(*interner, value@) is None,
        r matches Some(v) ==> mesh_projected(*interner, value@) == Some(v@),
{
    match value {
        FieldValue::Struct(f) => {
            proof {
                lemma_struct_view(*value);
            }
            match named_value(f, lit("combined_mesh"), interner) {
                Some(c) => project_u32_value(c),
                None => None,
            }
        },
        FieldValue::Bytes(b) => if b.len() >= 4 {
            let r = take_bytes(b, 0, 4);
            assert(b@.subrange(0, 4) =~= b@.take(4));
            Some(r)
        } else {
            None
        },
        FieldValue::Uint(_) => project_u32_value(value),
        FieldValue::Int(_) => project_u32_value(value),
        _ => None,
    }
}

/// A reference row projected to FO4's `reference` and `combined_mesh`.
/// The names it writes are interned first.
pub fn project_cell_xcri_reference(value: &FieldValue, interner: &mut StringInterner) -> (r: Option<FieldValue>)
    requires
        old(interner).wf(),
        old(interner)@.len() + 6 <= u32::MAX,
    ensures
        final(interner).wf(),
        final(interner)@ == intern_all(old(interner)@, seq!["meshes_count".spec_bytes(), "references_count".spec_bytes(), "meshes".spec_bytes(), "references".spec_bytes(), "reference".spec_bytes(), "combined_mesh".spec_bytes()]),
        r is None <==> reference_projected(*final(interner), final(interner)@, value@) is None,
        r matches Some(v) ==> reference_projected(*final(interner), final(interner)@, value@) == Some(v@),
{
    let names: Vec<&str> = vec!["meshes_count", "references_count", "meshes", "references", "reference", "combined_mesh"];
    intern_each(interner, names.as_slice());
    proof {
        assert(strs_bytes(names@) =~= seq!["meshes_count".spec_bytes(), "references_count".spec_bytes(), "meshes".spec_bytes(), "references".spec_bytes(), "reference".spec_bytes(), "combined_mesh".spec_bytes()]);
        assert(interner@.contains(strs_bytes(names@)[0]));
        assert(interner@.contains(strs_bytes(names@)[1]));
        assert(interner@.contains(strs_bytes(names@)[2]));
        assert(interner@.contains(strs_bytes(names@)[3]));
        assert(interner@.contains(strs_bytes(names@)[4]));
        assert(interner@.contains(strs_bytes(names@)[5]));
    }
    project_cell_xcri_reference_interned(value, interner)
}

/// A reference row projected to FO4's `reference` and `combined_mesh`.
pub(crate) fn project_cell_xcri_reference_interned(value: &FieldValue, interner: &StringInterner) -> (r: Option<FieldValue>)
    requires
        interner.wf(),
        holds_xcri_names(interner@),
    ensures
        r is None <==> reference_projected(*interner, interner@, value@) is None,
        r matches Some(v) ==> reference_projected(*interner, interner@, value@) == Some(v@),
{
    let rk = name_handle(interner, "reference");
    let ck = name_handle(interner, "combined_mesh");
    match value {
        FieldValue::Struct(f) => {
            proof {
                lemma_struct_view(*value);
            }
            let Some(rv) = named_value(f, lit("reference"), interner) else {
                return None;
            };
            let Some(cv) = named_value(f, lit("combined_mesh"), interner) else {
                return None;
            };
            let Some(pr) = project_formid_value(rv) else {
                return None;
            };
            let Some(pc) = project_u32_value(cv) else {
                return None;
            };
            let r = FieldValue::Struct(vec![(rk, pr), (ck, pc)]);
            proof {
                lemma_struct_view(r);
                assert(named_view(r->Struct_0@) =~= reference_projected(*interner, interner@, value@)->0->Struct_0);
            }
            Some(r)
        },
        FieldValue::Bytes(b) => {
            if b.len() < 8 {
                return None;
            }
            let (a, c) = if b.len() >= 16 { (0usize, 8usize) } else { (0usize, 4usize) };
            let r = FieldValue::Struct(vec![(rk, take_bytes(b, a, a + 4)), (ck, take_bytes(b, c, c + 4))]);
            proof {
                lemma_struct_view(r);
                assert(b@.subrange(0, 4) =~= b@.take(4));
                assert(named_view(r->Struct_0@) =~= reference_projected(*interner, interner@, value@)->0->Struct_0);
            }
            Some(r)
        },
        _ => None,
    }
}

fn project_items(items: &Vec<FieldValue>, interner: &StringInterner, mesh: bool) -> (r: Option<Vec<FieldValue>>)
    requires
        interner.wf(),
        holds_xcri_names(interner@),
    ensures
        r is None <==> all_projected(*interner, interner@, values_view(items@), mesh) is None,
        r matches Some(v) ==> all_projected(*interner, interner@, values_view(items@), mesh) == Some(values_view(v@)),
{
    let ghost iv = values_view(items@);
    let mut out: Vec<FieldValue> = Vec::new();
    let mut i: usize = 0;
    assert(iv.take(0) =~= Seq::<FieldView>::empty());
    assert(values_view(out@) =~= Seq::<FieldView>::empty());
    while i < items.len()
        invariant
            i <= items@.len(),
            iv == values_view(items@),
            interner.wf(),
            holds_xcri_names(interner@),
            all_projected(*interner, interner@, iv.take(i as int), mesh) == Some(values_view(out@)),
        decreases items@.len() - i,
    {
        assert(iv.take(i + 1).drop_last() =~= iv.take(i as int));
        assert(iv.take(i + 1).last() == items@[i as int]@);
        let p = if mesh {
            project_cell_xcri_mesh(&items[i], interner)
        } else {
            project_cell_xcri_reference_interned(&items[i], interner)
        };
        match p {
            Some(v) => {
                let ghost before = values_view(out@);
                let ghost vv = v@;
                out.push(v);
                assert(values_view(out@) =~= before.push(vv));
            },
            None => {
                proof {
                    lemma_all_projected_none(*interner, interner@, iv, mesh, i as int + 1);
                }
                return None;
            },
        }
        i = i + 1;
    }
    assert(iv.take(i as int) =~= iv);
    Some(out)
}

proof fn lemma_all_projected_none(interner: StringInterner, held: Seq<Seq<u8>>, items: Seq<FieldView>, mesh: bool, k: int)
    requires
        0 <= k <= items.len(),
        all_projected(interner, held, items.take(k), mesh) is None,
    ensures
        all_projected(interner, held, items, mesh) is None,
    decreases items.len() - k,
{
    if k < items.len() {
        assert(items.take(k + 1).drop_last() =~= items.take(k));
        lemma_all_projected_none(interner, held, items, mesh, k + 1);
    } else {
        assert(items.take(k) =~= items);
    }
}

fn member_rows_exec(f: &Vec<(Sym, FieldValue)>, name: &str, interner: &StringInterner, mesh: bool) -> (r: Option<Vec<FieldValue>>)
    requires
        interner.wf(),
        holds_xcri_names(interner@),
    ensures
        r is None <==> member_rows(*interner, interner@, named_view(f@), name.spec_bytes(), mesh) is None,
        r matches Some(v) ==> member_rows(*interner, interner@, named_view(f@), name.spec_bytes(), mesh) == Some(values_view(v@)),
{
    match named_value(f, lit(name), interner) {
        Some(v) => match v {
            FieldValue::List(items) => {
                proof {
                    lemma_list_view(*v);
                }
                project_items(items, interner, mesh)
            },
            _ => None,
        },
        None => {
            let out: Vec<FieldValue> = Vec::new();
            assert(values_view(out@) =~= Seq::<FieldView>::empty());
            Some(out)
        },
    }
}

/// A structured index rebuilt in FO4's shape, or `None` when unreadable.
/// The names it writes are interned first.
pub fn convert_cell_xcri_struct_to_fo4(fields: &Vec<(Sym, FieldValue)>, interner: &mut StringInterner) -> (r: Option<FieldValue>)
    requires
        old(interner).wf(),
        old(interner)@.len() + 6 <= u32::MAX,
    ensures
        final(interner).wf(),
        final(interner)@ == intern_all(old(interner)@, seq!["meshes_count".spec_bytes(), "references_count".spec_bytes(), "meshes".spec_bytes(), "references".spec_bytes(), "reference".spec_bytes(), "combined_mesh".spec_bytes()]),
        r is None <==> xcri_struct_fo4(*final(interner), final(interner)@, named_view(fields@)) is None,
        r matches Some(v) ==> xcri_struct_fo4(*final(interner), final(interner)@, named_view(fields@)) == Some(v@),
{
    let names: Vec<&str> = vec!["meshes_count", "references_count", "meshes", "references", "reference", "combined_mesh"];
    intern_each(interner, names.as_slice());
    proof {
        assert(strs_bytes(names@) =~= seq!["meshes_count".spec_bytes(), "references_count".spec_bytes(), "meshes".spec_bytes(), "references".spec_bytes(), "reference".spec_bytes(), "combined_mesh".spec_bytes()]);
        assert(interner@.contains(strs_bytes(names@)[0]));
        assert(interner@.contains(strs_bytes(names@)[1]));
        assert(interner@.contains(strs_bytes(names@)[2]));
        assert(interner@.contains(strs_bytes(names@)[3]));
        assert(interner@.contains(strs_bytes(names@)[4]));
        assert(interner@.contains(strs_bytes(names@)[5]));
    }
    convert_cell_xcri_struct_to_fo4_interned(fields, interner)
}

/// A structured index rebuilt in FO4's shape, or `None` when unreadable.
pub(crate) fn convert_cell_xcri_struct_to_fo4_interned(fields: &Vec<(Sym, FieldValue)>, interner: &StringInterner) -> (r: Option<FieldValue>)
    requires
        interner.wf(),
        holds_xcri_names(interner@),
    ensures
        r is None <==> xcri_struct_fo4(*interner, interner@, named_view(fields@)) is None,
        r matches Some(v) ==> xcri_struct_fo4(*interner, interner@, named_view(fields@)) == Some(v@),
{
    if named_value(fields, lit("meshes_count"), interner).is_none() && named_value(fields, lit("references_count"), interner).is_none()
        && named_value(fields, lit("meshes"), interner).is_none() && named_value(fields, lit("references"), interner).is_none() {
        return None;
    }
    let Some(meshes) = member_rows_exec(fields, "meshes", interner, true) else {
        return None;
    };
    let Some(references) = member_rows_exec(fields, "references", interner, false) else {
        return None;
    };
    let ghost mv = values_view(meshes@);
    let ghost rv = values_view(references@);
    let mc = meshes.len() as u64;
    let rc = references.len() as u64;
    let ml = FieldValue::List(meshes);
    let rl = FieldValue::List(references);
    proof {
        lemma_list_view(ml);
        lemma_list_view(rl);
    }
    let r = FieldValue::Struct(vec![
        (name_handle(interner, "meshes_count"), FieldValue::Uint(mc)),
        (name_handle(interner, "references_count"), FieldValue::Uint(rc)),
        (name_handle(interner, "meshes"), ml),
        (name_handle(interner, "references"), rl),
    ]);
    proof {
        lemma_struct_view(r);
        assert(named_view(r->Struct_0@) =~= xcri_struct_fo4(*interner, interner@, named_view(fields@))->0->Struct_0);
    }
    Some(r)
}

/// An index value in FO4's layout, or `None` when unreadable.
/// The names it writes are interned first.
pub fn convert_cell_xcri_to_fo4(value: &FieldValue, interner: &mut StringInterner) -> (r: Option<FieldValue>)
    requires
        old(interner).wf(),
        old(interner)@.len() + 6 <= u32::MAX,
    ensures
        final(interner).wf(),
        final(interner)@ == intern_all(old(interner)@, seq!["meshes_count".spec_bytes(), "references_count".spec_bytes(), "meshes".spec_bytes(), "references".spec_bytes(), "reference".spec_bytes(), "combined_mesh".spec_bytes()]),
        r is None <==> xcri_fo4(*final(interner), value@) is None,
        r matches Some(v) ==> xcri_fo4(*final(interner), value@) == Some(v@),
{
    let names: Vec<&str> = vec!["meshes_count", "references_count", "meshes", "references", "reference", "combined_mesh"];
    intern_each(interner, names.as_slice());
    proof {
        assert(strs_bytes(names@) =~= seq!["meshes_count".spec_bytes(), "references_count".spec_bytes(), "meshes".spec_bytes(), "references".spec_bytes(), "reference".spec_bytes(), "combined_mesh".spec_bytes()]);
        assert(interner@.contains(strs_bytes(names@)[0]));
        assert(interner@.contains(strs_bytes(names@)[1]));
        assert(interner@.contains(strs_bytes(names@)[2]));
        assert(interner@.contains(strs_bytes(names@)[3]));
        assert(interner@.contains(strs_bytes(names@)[4]));
        assert(interner@.contains(strs_bytes(names@)[5]));
    }
    convert_cell_xcri_to_fo4_interned(value, interner)
}

/// An index value in FO4's layout, or `None` when unreadable.
pub(crate) fn convert_cell_xcri_to_fo4_interned(value: &FieldValue, interner: &StringInterner) -> (r: Option<FieldValue>)
    requires
        interner.wf(),
        holds_xcri_names(interner@),
    ensures
        r is None <==> xcri_fo4(*interner, value@) is None,
        r matches Some(v) ==> xcri_fo4(*interner, value@) == Some(v@),
{
    match value {
        FieldValue::Bytes(b) => match convert_cell_xcri_raw_to_fo4(b.as_slice()) {
            Some(o) => Some(FieldValue::Bytes(o)),
            None => None,
        },
        FieldValue::Struct(f) => {
            proof {
                lemma_struct_view(*value);
            }
            convert_cell_xcri_struct_to_fo4_interned(f, interner)
        },
        _ => None,
    }
}

/// The cell's entries with every index converted or, when unreadable,
/// dropped.
pub open spec fn xcri_converted(interner: StringInterner, f: Seq<EntryView>) -> Seq<EntryView>
    decreases f.len(),
{
    if f.len() == 0 {
        Seq::empty()
    } else {
        let prev = xcri_converted(interner, f.drop_last());
        let e = f.last();
        if e.sig == code('X', 'C', 'R', 'I') {
            match xcri_fo4(interner, e.value) {
                Some(v) => prev.push(EntryView { value: v, ..e }),
                None => prev,
            }
        } else {
            prev.push(e)
        }
    }
}

impl Fo76Fo4Hook {
    /// Convert a cell's combined-reference indexes to FO4's layout, dropping
    /// any that cannot be read.
    /// The names it writes are interned first.
    pub fn convert_or_drop_cell_combined_reference_index(interner: &mut StringInterner, record: &mut Record)
        requires
            old(interner).wf(),
            old(interner)@.len() + 6 <= u32::MAX,
        ensures
            final(interner).wf(),
            final(interner)@ == intern_all(old(interner)@, seq!["meshes_count".spec_bytes(), "references_count".spec_bytes(), "meshes".spec_bytes(), "references".spec_bytes(), "reference".spec_bytes(), "combined_mesh".spec_bytes()]),
            old(record)@.sig == code('C', 'E', 'L', 'L') ==> final(record)@ == (RecordView {
                fields: xcri_converted(*final(interner), old(record)@.fields),
                ..old(record)@
            }),
            old(record)@.sig != code('C', 'E', 'L', 'L') ==> final(record)@ == old(record)@,
    {
        let names: Vec<&str> = vec!["meshes_count", "references_count", "meshes", "references", "reference", "combined_mesh"];
        intern_each(interner, names.as_slice());
        proof {
            assert(strs_bytes(names@) =~= seq!["meshes_count".spec_bytes(), "references_count".spec_bytes(), "meshes".spec_bytes(), "references".spec_bytes(), "reference".spec_bytes(), "combined_mesh".spec_bytes()]);
            assert(interner@.contains(strs_bytes(names@)[0]));
            assert(interner@.contains(strs_bytes(names@)[1]));
            assert(interner@.contains(strs_bytes(names@)[2]));
            assert(interner@.contains(strs_bytes(names@)[3]));
            assert(interner@.contains(strs_bytes(names@)[4]));
            assert(interner@.contains(strs_bytes(names@)[5]));
        }
        Self::convert_or_drop_cell_combined_reference_index_interned(interner, record)
    }

    /// Convert a cell's combined-reference indexes to FO4's layout, dropping
    /// any that cannot be read.
    pub(crate) fn convert_or_drop_cell_combined_reference_index_interned(interner: &StringInterner, record: &mut Record)
        requires
            interner.wf(),
            holds_xcri_names(interner@),
        ensures
            old(record)@.sig == code('C', 'E', 'L', 'L') ==> final(record)@ == (RecordView {
                fields: xcri_converted(*interner, old(record)@.fields),
                ..old(record)@
            }),
            old(record)@.sig != code('C', 'E', 'L', 'L') ==> final(record)@ == old(record)@,
    {
        if !sig_is(record.sig.0, 'C', 'E', 'L', 'L') {
            return;
        }
        let ghost orig = record@.fields;
        let mut rest: Vec<FieldEntry> = Vec::new();
        core::mem::swap(&mut record.fields, &mut rest);
        let n = rest.len();
        let mut kept: Vec<FieldEntry> = Vec::new();
        let mut idx: usize = 0;
        assert(entries_view(kept@) =~= Seq::<EntryView>::empty());
        while idx < n
            invariant
                orig.len() == n,
                idx <= n,
                rest@.len() == n - idx,
                forall|j: int| 0 <= j < rest@.len() ==> rest@[j]@ == orig[idx + j],
                entries_view(kept@) == xcri_converted(*interner, orig.take(idx as int)),
                interner.wf(),
                holds_xcri_names(interner@),
            decreases n - idx,
        {
            let e = rest.remove(0);
            proof {
                assert(orig.take(idx + 1).drop_last() =~= orig.take(idx as int));
                assert(orig.take(idx + 1).last() == orig[idx as int]);
            }
            if sig_is(e.sig.0, 'X', 'C', 'R', 'I') {
                if let Some(v) = convert_cell_xcri_to_fo4_interned(&e.value, interner) {
                    push_entry(&mut kept, FieldEntry { sig: e.sig, value: v });
                }
            } else {
                push_entry(&mut kept, e);
            }
            idx = idx + 1;
        }
        assert(orig.take(n as int) =~= orig);
        record.fields = kept;
    }
}


/// A raw index already in FO4's layout (its two counts announce exactly
/// its length) converts to itself.
pub proof fn law_fo4_xcri_kept(b: Seq<u8>)
    requires
        fo4_xcri_size(b) == Some(b.len() as int),
    ensures
        xcri_raw_fo4(b) == Some(b),
{
}


proof fn lemma_projected_rows_len(b: Seq<u8>, m: nat)
    requires
        b.len() == 8 * m,
    ensures
        projected_rows(b, 8, 4).len() == 4 * m,
    decreases m,
{
    if m > 0 {
        lemma_projected_rows_len(b.skip(8), (m - 1) as nat);
    }
}

proof fn lemma_reference_rows_len(s: Seq<u8>, r: nat)
    requires
        s.len() == 16 * r,
    ensures
        reference_rows(s).len() == 8 * r,
    decreases r,
{
    if r > 0 {
        lemma_reference_rows_len(s.skip(16), (r - 1) as nat);
    }
}

/// Every index the conversion gives is in FO4's layout (its two counts
/// announce exactly its length), so converting it again gives it back.
pub proof fn law_xcri_output_fo4_shaped(b: Seq<u8>)
    requires
        b.len() <= usize::MAX,
        xcri_raw_fo4(b) is Some,
    ensures
        fo4_xcri_size(xcri_raw_fo4(b)->0) == Some(xcri_raw_fo4(b)->0.len() as int),
        xcri_raw_fo4(xcri_raw_fo4(b)->0) == xcri_raw_fo4(b),
{
    let y = xcri_raw_fo4(b)->0;
    if fo4_xcri_size(b) != Some(b.len() as int) {
        let m = le64(b, 0);
        let r = le64(b, 8);
        let rs = 16 + m * 8;
        lemma_projected_rows_len(b.subrange(16, rs), m as nat);
        lemma_reference_rows_len(b.subrange(rs, b.len() as int), r as nat);
        let hm = u32_bytes(m as u32);
        let hr = u32_bytes(r as u32);
        let p = projected_rows(b.subrange(16, rs), 8, 4);
        let q = reference_rows(b.subrange(rs, b.len() as int));
        assert(y == hm + hr + p + q);
        crate::bytes::lemma_le32_of_bytes(m as u32);
        crate::bytes::lemma_le32_of_bytes(r as u32);
        assert(y.subrange(0, 4) =~= hm);
        assert(y.subrange(4, 8) =~= hr);
        assert(le32(y, 0) == le32(hm, 0)) by {
            assert(y[0] == hm[0] && y[1] == hm[1] && y[2] == hm[2] && y[3] == hm[3]);
        }
        assert(le32(y, 4) == le32(hr, 0)) by {
            assert(y[4] == hr[0] && y[5] == hr[1] && y[6] == hr[2] && y[7] == hr[3]);
        }
        assert(y.len() == 8 + 4 * m + 8 * r);
        assert(y.len() < b.len());
    }
}

} // verus!
