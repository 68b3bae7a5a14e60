//! Looking up members of struct values by name.
use vstd::prelude::*;
use crate::floatbits::{
    f32_bits_finite, f32_bits_positive, f32_bits_trunc_mag, f32_finite, f32_positive, f32_trunc_mag,
};
use crate::model::{FieldValue, FieldView, Sym};
use crate::text::{
    bytes_eq, bytes_eq_ignore_case, eq_ignore_case, lower_byte, StringInterner,
};

verus! {

/// Whether a byte is an ASCII letter or digit.
pub open spec fn alnum(b: u8) -> bool {
    (48 <= b <= 57) || (65 <= b <= 90) || (97 <= b <= 122)
}

/// A member name reduced to its ASCII letters and digits, lower-cased.
pub open spec fn canonical(s: Seq<u8>) -> Seq<u8>
    decreases s.len(),
{
    if s.len() == 0 {
        Seq::empty()
    } else if alnum(s.last()) {
        canonical(s.drop_last()).push(lower_byte(s.last()))
    } else {
        canonical(s.drop_last())
    }
}

/// A member name reduced to its ASCII letters and digits, lower-cased.
pub fn canonical_field_name(name: &[u8]) -> (r: Vec<u8>)
    ensures
        r@ == canonical(name@),
{
    let mut out: Vec<u8> = Vec::new();
    let mut i: usize = 0;
    while i < name.len()
        invariant
            i <= name.len(),
            out@ == canonical(name@.take(i as int)),
        decreases name.len() - i,
    {
        let b = name[i];
        assert(name@.take(i + 1).drop_last() =~= name@.take(i as int));
        if (48 <= b && b <= 57) || (65 <= b && b <= 90) || (97 <= b && b <= 122) {
            let l = if 65 <= b && b <= 90 { b + 32 } else { b };
            out.push(l);
        }
        i = i + 1;
    }
    assert(name@.take(name.len() as int) =~= name@);
    out
}

/// Whether member `j`'s name resolves and matches `name` canonically.
pub open spec fn canonical_match(
    interner: StringInterner,
    fields: Seq<(Sym, FieldView)>,
    name: Seq<u8>,
    j: int,
) -> bool {
    interner.spec_resolve(fields[j].0) matches Some(a) && canonical(a) == canonical(name)
}

/// The index of the first member whose name matches `name` canonically.
pub open spec fn canonical_index(
    interner: StringInterner,
    fields: Seq<(Sym, FieldView)>,
    name: Seq<u8>,
) -> Option<int> {
    if exists|j: int|
        0 <= j < fields.len() && canonical_match(interner, fields, name, j) && forall|k: int|
            0 <= k < j ==> !canonical_match(interner, fields, name, k) {
        Some(
            choose|j: int|
                0 <= j < fields.len() && canonical_match(interner, fields, name, j) && forall|
                    k: int,
                | 0 <= k < j ==> !canonical_match(interner, fields, name, k),
        )
    } else {
        None
    }
}

proof fn lemma_first_unique<F>(p: spec_fn(int) -> bool, n: int, j: int)
    requires
        0 <= j < n,
        p(j),
        forall|k: int| 0 <= k < j ==> !#[trigger] p(k),
    ensures
        forall|i: int|
            0 <= i < n && #[trigger] p(i) && (forall|k: int| 0 <= k < i ==> !#[trigger] p(k)) ==> i == j,
{
    assert forall|i: int|
        0 <= i < n && #[trigger] p(i) && (forall|k: int| 0 <= k < i ==> !#[trigger] p(k)) implies i
        == j by {
        if i < j {
        } else if i > j {
            assert(!p(j));
        }
    }
}

/// The index of the first member whose name matches `name` canonically.
pub fn field_index_canonical(
    fields: &Vec<(Sym, FieldValue)>,
    name: &[u8],
    interner: &StringInterner,
) -> (r: Option<usize>)
    ensures
        r is Some <==> canonical_index(*interner, crate::model::named_view(fields@), name@) is Some,
        r matches Some(j) ==> j < fields@.len() && canonical_index(
            *interner,
            crate::model::named_view(fields@),
            name@,
        ) == Some(j as int),
{
    let ghost nv = crate::model::named_view(fields@);
    let wanted = canonical_field_name(name);
    let mut i: usize = 0;
    while i < fields.len()
        invariant
            i <= fields.len(),
            nv == crate::model::named_view(fields@),
            wanted@ == canonical(name@),
            forall|k: int| 0 <= k < i ==> !canonical_match(*interner, nv, name@, k),
        decreases fields.len() - i,
    {
        assert(nv[i as int].0 == fields@[i as int].0);
        let hit = match interner.resolve(fields[i].0) {
            Some(actual) => {
                let c = canonical_field_name(actual);
                bytes_eq(c.as_slice(), wanted.as_slice())
            },
            None => false,
        };
        if hit {
            proof {
                let p = |j: int| canonical_match(*interner, nv, name@, j);
                assert(p(i as int));
                lemma_first_unique::<int>(p, nv.len() as int, i as int);
            }
            return Some(i);
        }
        i = i + 1;
    }
    None
}

/// The member value found by `canonical_index`.
pub open spec fn canonical_value(
    interner: StringInterner,
    fields: Seq<(Sym, FieldView)>,
    name: Seq<u8>,
) -> Option<FieldView> {
    match canonical_index(interner, fields, name) {
        Some(j) => Some(fields[j].1),
        None => None,
    }
}

/// The value of the first member whose name matches `name` canonically.
pub fn named_value_canonical<'a>(
    fields: &'a Vec<(Sym, FieldValue)>,
    name: &[u8],
    interner: &StringInterner,
) -> (r: Option<&'a FieldValue>)
    ensures
        r is Some <==> canonical_value(*interner, crate::model::named_view(fields@), name@) is Some,
        r matches Some(v) ==> canonical_value(*interner, crate::model::named_view(fields@), name@)
            == Some(v@),
{
    match field_index_canonical(fields, name, interner) {
        Some(j) => Some(&fields[j].1),
        None => None,
    }
}

/// Whether member `j` is named exactly `name`.
pub open spec fn exact_match(
    interner: StringInterner,
    fields: Seq<(Sym, FieldView)>,
    name: Seq<u8>,
    j: int,
) -> bool {
    interner.spec_resolve(fields[j].0) == Some(name)
}

/// The value of the first member named exactly `name`.
pub open spec fn exact_value(
    interner: StringInterner,
    fields: Seq<(Sym, FieldView)>,
    name: Seq<u8>,
) -> Option<FieldView> {
    if exists|j: int|
        0 <= j < fields.len() && exact_match(interner, fields, name, j) && forall|k: int|
            0 <= k < j ==> !exact_match(interner, fields, name, k) {
        Some(
            fields[choose|j: int|
                0 <= j < fields.len() && exact_match(interner, fields, name, j) && forall|k: int|
                    0 <= k < j ==> !exact_match(interner, fields, name, k)].1,
        )
    } else {
        None
    }
}

/// The value of the first member named exactly `name`.
pub fn named_value<'a>(
    fields: &'a Vec<(Sym, FieldValue)>,
    name: &[u8],
    interner: &StringInterner,
) -> (r: Option<&'a FieldValue>)
    ensures
        r is Some <==> exact_value(*interner, crate::model::named_view(fields@), name@) is Some,
        r matches Some(v) ==> exact_value(*interner, crate::model::named_view(fields@), name@)
            == Some(v@),
{
    let ghost nv = crate::model::named_view(fields@);
    let mut i: usize = 0;
    while i < fields.len()
        invariant
            i <= fields.len(),
            nv == crate::model::named_view(fields@),
            forall|k: int| 0 <= k < i ==> !exact_match(*interner, nv, name@, k),
        decreases fields.len() - i,
    {
        assert(nv[i as int].0 == fields@[i as int].0);
        let hit = match interner.resolve(fields[i].0) {
            Some(actual) => bytes_eq(actual, name),
            None => false,
        };
        if hit {
            proof {
                let p = |j: int| exact_match(*interner, nv, name@, j);
                assert(p(i as int));
                lemma_first_unique::<int>(p, nv.len() as int, i as int);
            }
            return Some(&fields[i].1);
        }
        i = i + 1;
    }
    None
}

/// The name with every underscore removed.
pub open spec fn without_underscores(s: Seq<u8>) -> Seq<u8>
    decreases s.len(),
{
    if s.len() == 0 {
        Seq::empty()
    } else if s.last() == 95 {
        without_underscores(s.drop_last())
    } else {
        without_underscores(s.drop_last()).push(s.last())
    }
}

fn remove_underscores(s: &[u8]) -> (r: Vec<u8>)
    ensures
        r@ == without_underscores(s@),
{
    let mut out: Vec<u8> = Vec::new();
    let mut i: usize = 0;
    while i < s.len()
        invariant
            i <= s.len(),
            out@ == without_underscores(s@.take(i as int)),
        decreases s.len() - i,
    {
        assert(s@.take(i + 1).drop_last() =~= s@.take(i as int));
        if s[i] != 95 {
            out.push(s[i]);
        }
        i = i + 1;
    }
    assert(s@.take(s.len() as int) =~= s@);
    out
}

/// Whether a member name resolves to `expected` ignoring ASCII case, with or
/// without its underscores.
pub open spec fn name_is(interner: StringInterner, name: Sym, expected: Seq<u8>) -> bool {
    interner.spec_resolve(name) matches Some(a) && (eq_ignore_case(a, expected) || eq_ignore_case(
        without_underscores(a),
        expected,
    ))
}

/// Whether a member name resolves to `expected` ignoring ASCII case, with or
/// without its underscores.
pub fn struct_field_name_is(interner: &StringInterner, name: Sym, expected: &[u8]) -> (r: bool)
    ensures
        r == name_is(*interner, name, expected@),
{
    match interner.resolve(name) {
        Some(actual) => {
            if bytes_eq_ignore_case(actual, expected) {
                return true;
            }
            let bare = remove_underscores(actual);
            bytes_eq_ignore_case(bare.as_slice(), expected)
        },
        None => false,
    }
}

/// A positive `u32` reading of a value: a positive in-range integer, or a
/// float greater than zero truncated (saturating at `u32::MAX`).
pub open spec fn positive_u32(v: FieldView) -> Option<u32> {
    match v {
        FieldView::Uint(n) => if 0 < n <= u32::MAX { Some(n as u32) } else { None },
        FieldView::Int(n) => if 0 < n <= u32::MAX { Some(n as u32) } else { None },
        FieldView::Float(b) => if f32_positive(b) {
            if !f32_finite(b) || f32_trunc_mag(b) > u32::MAX {
                Some(u32::MAX)
            } else {
                Some(f32_trunc_mag(b) as u32)
            }
        } else {
            None
        },
        _ => None,
    }
}

/// A positive `u32` reading of a value.
pub fn field_value_positive_u32(value: &FieldValue) -> (r: Option<u32>)
    ensures
        r == positive_u32(value@),
{
    match value {
        FieldValue::Uint(n) => if 0 < *n && *n <= 0xffff_ffff { Some(*n as u32) } else { None },
        FieldValue::Int(n) => if 0 < *n && *n <= 0xffff_ffff { Some(*n as u32) } else { None },
        FieldValue::Float(b) => if f32_bits_positive(*b) {
            if !f32_bits_finite(*b) {
                return Some(0xffff_ffff);
            }
            let mag = f32_bits_trunc_mag(*b);
            if mag > 0xffff_ffff { Some(0xffff_ffff) } else { Some(mag as u32) }
        } else {
            None
        },
        _ => None,
    }
}

/// Whether member `j`'s name is `expected` in the sense of `name_is`.
pub open spec fn name_is_at(
    interner: StringInterner,
    fields: Seq<(Sym, FieldView)>,
    expected: Seq<u8>,
    j: int,
) -> bool {
    name_is(interner, fields[j].0, expected)
}

/// The index of the first member whose name is `expected` in the sense of
/// `name_is`.
pub open spec fn name_index(
    interner: StringInterner,
    fields: Seq<(Sym, FieldView)>,
    expected: Seq<u8>,
) -> Option<int> {
    if exists|j: int|
        0 <= j < fields.len() && name_is_at(interner, fields, expected, j) && forall|k: int|
            0 <= k < j ==> !name_is_at(interner, fields, expected, k) {
        Some(
            choose|j: int|
                0 <= j < fields.len() && name_is_at(interner, fields, expected, j) && forall|
                    k: int,
                | 0 <= k < j ==> !name_is_at(interner, fields, expected, k),
        )
    } else {
        None
    }
}

/// The index of the first member whose name is `expected`.
pub fn find_member(fields: &Vec<(Sym, FieldValue)>, interner: &StringInterner, expected: &[u8]) -> (r: Option<usize>)
    ensures
        r is Some <==> name_index(*interner, crate::model::named_view(fields@), expected@) is Some,
        r matches Some(j) ==> j < fields@.len() && name_index(
            *interner,
            crate::model::named_view(fields@),
            expected@,
        ) == Some(j as int),
        r is None ==> forall|k: int| 0 <= k < fields@.len() ==> !name_is(*interner, #[trigger] fields@[k].0, expected@),
{
    let ghost nv = crate::model::named_view(fields@);
    let mut i: usize = 0;
    while i < fields.len()
        invariant
            i <= fields.len(),
            nv == crate::model::named_view(fields@),
            forall|k: int| 0 <= k < i ==> !name_is_at(*interner, nv, expected@, k),
        decreases fields.len() - i,
    {
        assert(nv[i as int].0 == fields@[i as int].0);
        if struct_field_name_is(interner, fields[i].0, expected) {
            proof {
                let p = |j: int| name_is_at(*interner, nv, expected@, j);
                assert(p(i as int));
                lemma_first_unique::<int>(p, nv.len() as int, i as int);
            }
            return Some(i);
        }
        i = i + 1;
    }
    proof {
        assert forall|k: int| 0 <= k < fields@.len() implies !name_is(*interner, #[trigger] fields@[k].0, expected@) by {
            assert(nv[k].0 == fields@[k].0);
            assert(!name_is_at(*interner, nv, expected@, k));
        }
    }
    None
}

/// The positive `u32` reading of the first member named `expected`.
pub open spec fn positive_member(
    interner: StringInterner,
    fields: Seq<(Sym, FieldView)>,
    expected: Seq<u8>,
) -> Option<u32> {
    match name_index(interner, fields, expected) {
        Some(j) => positive_u32(fields[j].1),
        None => None,
    }
}

/// The positive `u32` reading of the first member named `field_name`.
pub fn positive_u32_struct_field(
    interner: &StringInterner,
    fields: &Vec<(Sym, FieldValue)>,
    field_name: &[u8],
) -> (r: Option<u32>)
    ensures
        r == positive_member(*interner, crate::model::named_view(fields@), field_name@),
{
    match find_member(fields, interner, field_name) {
        Some(j) => field_value_positive_u32(&fields[j].1),
        None => None,
    }
}

} // verus!
