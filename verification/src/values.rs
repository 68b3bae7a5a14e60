//! Numeric readings of decoded field values, and in-place updates of
//! count/flag style values.
use vstd::prelude::*;
use crate::bytes::{le16, le32, read_u16_le, read_u32_le, splice, u32_bytes, write_u32_le};
use crate::floatbits::{
    f32_bits_finite, f32_bits_round_mag, f32_finite, f32_negative, f32_round_mag,
};
use crate::model::{lemma_list_view, lemma_members_view, lemma_struct_view, named_view, values_view, FieldValue, FieldView, Sym};
use crate::text::{bytes_until_nul, until_nul, StringInterner};

verus! {

/// A finite float rounded (ties away from zero) and accepted into
/// `0..=65535`; `-0` reads as zero.
pub open spec fn float_to_u16(b: u32) -> Option<u16> {
    if f32_negative(b) {
        if f32_round_mag(b) == 0 { Some(0u16) } else { None }
    } else if f32_round_mag(b) <= 65535 {
        Some(f32_round_mag(b) as u16)
    } else {
        None
    }
}

/// A finite float rounded (ties away from zero) and accepted into
/// `0..=2^32`, saturating at `u32::MAX`; `-0` reads as zero.
pub open spec fn float_to_u32(b: u32) -> Option<u32> {
    if f32_negative(b) {
        if f32_round_mag(b) == 0 { Some(0u32) } else { None }
    } else if f32_round_mag(b) <= 0x1_0000_0000 {
        if f32_round_mag(b) == 0x1_0000_0000 { Some(u32::MAX) } else { Some(f32_round_mag(b) as u32) }
    } else {
        None
    }
}

/// A finite float rounded (ties away from zero), saturating into `i64`.
pub open spec fn float_to_i64(b: u32) -> i64 {
    if f32_negative(b) {
        if f32_round_mag(b) >= 0x8000_0000_0000_0000 { i64::MIN } else { (-(f32_round_mag(b) as int)) as i64 }
    } else {
        if f32_round_mag(b) > i64::MAX { i64::MAX } else { f32_round_mag(b) as i64 }
    }
}

/// The `u16` a value reads as: an in-range integer, a finite float rounded
/// into range, the first two little-endian bytes, or the first struct member
/// that reads as one.
pub open spec fn value_to_u16(v: FieldView) -> Option<u16>
    decreases v,
{
    match v {
        FieldView::Uint(n) => if n <= 65535 { Some(n as u16) } else { None },
        FieldView::Int(n) => if 0 <= n <= 65535 { Some(n as u16) } else { None },
        FieldView::Float(b) => if f32_finite(b) { float_to_u16(b) } else { None },
        FieldView::Bytes(b) => if b.len() >= 2 { Some(le16(b, 0)) } else { None },
        FieldView::Struct(fields) => struct_to_u16(fields),
        _ => None,
    }
}

/// The first member of a struct that reads as a `u16`.
pub open spec fn struct_to_u16(fields: Seq<(Sym, FieldView)>) -> Option<u16>
    decreases fields,
{
    if fields.len() == 0 {
        None
    } else {
        match value_to_u16(fields[0].1) {
            Some(n) => Some(n),
            None => struct_to_u16(fields.subrange(1, fields.len() as int)),
        }
    }
}

} // verus!

verus! {

/// The `u32` a value reads as: an in-range integer, a finite float rounded
/// into range, the first four little-endian bytes, or the first struct member
/// that reads as one.
pub open spec fn value_to_u32(v: FieldView) -> Option<u32>
    decreases v,
{
    match v {
        FieldView::Uint(n) => if n <= u32::MAX { Some(n as u32) } else { None },
        FieldView::Int(n) => if 0 <= n <= u32::MAX { Some(n as u32) } else { None },
        FieldView::Float(b) => if f32_finite(b) { float_to_u32(b) } else { None },
        FieldView::Bytes(b) => if b.len() >= 4 { Some(le32(b, 0)) } else { None },
        FieldView::Struct(fields) => struct_to_u32(fields),
        _ => None,
    }
}

/// The first member of a struct that reads as a `u32`.
pub open spec fn struct_to_u32(fields: Seq<(Sym, FieldView)>) -> Option<u32>
    decreases fields,
{
    if fields.len() == 0 {
        None
    } else {
        match value_to_u32(fields[0].1) {
            Some(n) => Some(n),
            None => struct_to_u32(fields.subrange(1, fields.len() as int)),
        }
    }
}

/// The `i64` a value reads as: an integer that fits, a finite float rounded
/// and saturated, or the first four bytes as a little-endian `i32`.
pub open spec fn value_to_i64(v: FieldView) -> Option<i64> {
    match v {
        FieldView::Uint(n) => if n <= i64::MAX { Some(n as i64) } else { None },
        FieldView::Int(n) => Some(n),
        FieldView::Float(b) => if f32_finite(b) { Some(float_to_i64(b)) } else { None },
        FieldView::Bytes(b) => if b.len() >= 4 { Some(le32_signed(b, 0) as i64) } else { None },
        _ => None,
    }
}

/// The little-endian `i32` at `off`.
pub open spec fn le32_signed(b: Seq<u8>, off: int) -> i32 {
    if le32(b, off) >= 0x8000_0000 {
        (le32(b, off) as int - 0x1_0000_0000) as i32
    } else {
        le32(b, off) as i32
    }
}

proof fn lemma_struct_to_u16_skip(s: Seq<(Sym, FieldView)>, i: int)
    requires
        0 <= i <= s.len(),
        forall|j: int| 0 <= j < i ==> value_to_u16(#[trigger] s[j].1) is None,
    ensures
        struct_to_u16(s) == struct_to_u16(s.subrange(i, s.len() as int)),
    decreases i,
{
    if i > 0 {
        let t = s.subrange(1, s.len() as int);
        assert forall|j: int| 0 <= j < i - 1 implies value_to_u16(#[trigger] t[j].1) is None by {
            assert(t[j] == s[j + 1]);
        }
        lemma_struct_to_u16_skip(t, i - 1);
        assert(t.subrange(i - 1, t.len() as int) =~= s.subrange(i, s.len() as int));
    } else {
        assert(s.subrange(0, s.len() as int) =~= s);
    }
}

proof fn lemma_struct_to_u32_skip(s: Seq<(Sym, FieldView)>, i: int)
    requires
        0 <= i <= s.len(),
        forall|j: int| 0 <= j < i ==> value_to_u32(#[trigger] s[j].1) is None,
    ensures
        struct_to_u32(s) == struct_to_u32(s.subrange(i, s.len() as int)),
    decreases i,
{
    if i > 0 {
        let t = s.subrange(1, s.len() as int);
        assert forall|j: int| 0 <= j < i - 1 implies value_to_u32(#[trigger] t[j].1) is None by {
            assert(t[j] == s[j + 1]);
        }
        lemma_struct_to_u32_skip(t, i - 1);
        assert(t.subrange(i - 1, t.len() as int) =~= s.subrange(i, s.len() as int));
    } else {
        assert(s.subrange(0, s.len() as int) =~= s);
    }
}

/// Read a finite float as a `u16` the way `round()` and a range check do.
fn float_bits_to_u16(b: u32) -> (r: Option<u16>)
    requires
        f32_finite(b),
    ensures
        r == float_to_u16(b),
{
    let mag = f32_bits_round_mag(b);
    if b >= 0x8000_0000 {
        if mag == 0 { Some(0) } else { None }
    } else if mag <= 65535 {
        Some(mag as u16)
    } else {
        None
    }
}

/// Read a finite float as a `u32` the way `round()`, a range check and a
/// saturating cast do.
fn float_bits_to_u32(b: u32) -> (r: Option<u32>)
    requires
        f32_finite(b),
    ensures
        r == float_to_u32(b),
{
    let mag = f32_bits_round_mag(b);
    if b >= 0x8000_0000 {
        if mag == 0 { Some(0) } else { None }
    } else if mag <= 0x1_0000_0000 {
        if mag == 0x1_0000_0000 { Some(u32::MAX) } else { Some(mag as u32) }
    } else {
        None
    }
}

/// Read a finite float as an `i64` the way `round()` and a saturating cast
/// do.
fn float_bits_to_i64(b: u32) -> (r: i64)
    requires
        f32_finite(b),
    ensures
        r == float_to_i64(b),
{
    let mag = f32_bits_round_mag(b);
    if b >= 0x8000_0000 {
        if mag >= 0x8000_0000_0000_0000 { i64::MIN } else { -(mag as i64) }
    } else {
        if mag > 0x7fff_ffff_ffff_ffff { i64::MAX } else { mag as i64 }
    }
}

/// The `u16` a value reads as, if any.
pub fn field_value_to_u16(value: &FieldValue) -> (r: Option<u16>)
    ensures
        r == value_to_u16(value@),
    decreases value,
{
    match value {
        FieldValue::Uint(n) => if *n <= 65535 { Some(*n as u16) } else { None },
        FieldValue::Int(n) => if 0 <= *n && *n <= 65535 { Some(*n as u16) } else { None },
        FieldValue::Float(b) => if f32_bits_finite(*b) { float_bits_to_u16(*b) } else { None },
        FieldValue::Bytes(bytes) => if bytes.len() >= 2 { Some(read_u16_le(bytes.as_slice(), 0)) } else { None },
        FieldValue::Struct(fields) => {
            let ghost s = value@->Struct_0;
            proof {
                lemma_struct_view(*value);
            }
            let mut i: usize = 0;
            while i < fields.len()
                invariant
                    i <= fields.len(),
                    *value is Struct,
                    value->Struct_0 == *fields,
                    s == value@->Struct_0,
                    s.len() == fields@.len(),
                    forall|j: int| 0 <= j < fields@.len() ==> s[j] == (fields@[j].0, fields@[j].1@),
                    forall|j: int| 0 <= j < i ==> value_to_u16(#[trigger] s[j].1) is None,
                decreases fields.len() - i,
            {
                proof {
                    let ghost all = value->Struct_0;
                    assert(decreases_to!(all => all@));
                    assert(decreases_to!(all@ => all@[i as int]));
                    assert(decreases_to!(all@[i as int] => all@[i as int].1));
                }
                let r = field_value_to_u16(&fields[i].1);
                if r.is_some() {
                    proof {
                        lemma_struct_to_u16_skip(s, i as int);
                        let t = s.subrange(i as int, s.len() as int);
                        assert(t[0] == s[i as int]);
                    }
                    return r;
                }
                i = i + 1;
            }
            proof {
                lemma_struct_to_u16_skip(s, i as int);
            }
            None
        },
        _ => None,
    }
}

/// The `u32` a value reads as, if any.
pub fn field_value_to_u32(value: &FieldValue) -> (r: Option<u32>)
    ensures
        r == value_to_u32(value@),
    decreases value,
{
    match value {
        FieldValue::Uint(n) => if *n <= 0xffff_ffff { Some(*n as u32) } else { None },
        FieldValue::Int(n) => if 0 <= *n && *n <= 0xffff_ffff { Some(*n as u32) } else { None },
        FieldValue::Float(b) => if f32_bits_finite(*b) { float_bits_to_u32(*b) } else { None },
        FieldValue::Bytes(bytes) => if bytes.len() >= 4 { Some(read_u32_le(bytes.as_slice(), 0)) } else { None },
        FieldValue::Struct(fields) => {
            let ghost s = value@->Struct_0;
            proof {
                lemma_struct_view(*value);
            }
            let mut i: usize = 0;
            while i < fields.len()
                invariant
                    i <= fields.len(),
                    *value is Struct,
                    value->Struct_0 == *fields,
                    s == value@->Struct_0,
                    s.len() == fields@.len(),
                    forall|j: int| 0 <= j < fields@.len() ==> s[j] == (fields@[j].0, fields@[j].1@),
                    forall|j: int| 0 <= j < i ==> value_to_u32(#[trigger] s[j].1) is None,
                decreases fields.len() - i,
            {
                proof {
                    let ghost all = value->Struct_0;
                    assert(decreases_to!(all => all@));
                    assert(decreases_to!(all@ => all@[i as int]));
                    assert(decreases_to!(all@[i as int] => all@[i as int].1));
                }
                let r = field_value_to_u32(&fields[i].1);
                if r.is_some() {
                    proof {
                        lemma_struct_to_u32_skip(s, i as int);
                        let t = s.subrange(i as int, s.len() as int);
                        assert(t[0] == s[i as int]);
                    }
                    return r;
                }
                i = i + 1;
            }
            proof {
                lemma_struct_to_u32_skip(s, i as int);
            }
            None
        },
        _ => None,
    }
}

/// The `i64` a value reads as, if any.
pub fn field_value_to_i64(value: &FieldValue) -> (r: Option<i64>)
    ensures
        r == value_to_i64(value@),
{
    match value {
        FieldValue::Uint(n) => if *n <= 0x7fff_ffff_ffff_ffff { Some(*n as i64) } else { None },
        FieldValue::Int(n) => Some(*n),
        FieldValue::Float(b) => if f32_bits_finite(*b) { Some(float_bits_to_i64(*b)) } else { None },
        FieldValue::Bytes(bytes) => if bytes.len() >= 4 {
            let raw = read_u32_le(bytes.as_slice(), 0);
            let signed: i64 = if raw >= 0x8000_0000 { raw as i64 - 0x1_0000_0000 } else { raw as i64 };
            Some(signed)
        } else {
            None
        },
        _ => None,
    }
}

} // verus!

verus! {

/// Whether an `ONAM` value names a usable part: a form id whose object id
/// (low 24 bits) is non-zero, directly or inside a list or struct.
pub open spec fn onam_usable(v: FieldView) -> bool
    decreases v,
{
    match v {
        FieldView::FormKey(fk) => fk.local % 0x100_0000 != 0,
        FieldView::Bytes(b) => b.len() >= 4 && le32(b, 0) % 0x100_0000 != 0,
        FieldView::Uint(n) => n % 0x100_0000 != 0,
        FieldView::Int(n) => n > 0 && n % 0x100_0000 != 0,
        FieldView::List(items) => onam_usable_any(items),
        FieldView::Struct(fields) => onam_usable_any_member(fields),
        _ => false,
    }
}

/// Whether some item names a usable part.
pub open spec fn onam_usable_any(s: Seq<FieldView>) -> bool
    decreases s,
{
    s.len() > 0 && (onam_usable(s[0]) || onam_usable_any(s.subrange(1, s.len() as int)))
}

/// Whether some member names a usable part.
pub open spec fn onam_usable_any_member(s: Seq<(Sym, FieldView)>) -> bool
    decreases s,
{
    s.len() > 0 && (onam_usable(s[0].1) || onam_usable_any_member(s.subrange(1, s.len() as int)))
}

proof fn lemma_onam_usable_any(s: Seq<FieldView>)
    ensures
        onam_usable_any(s) <==> exists|i: int| 0 <= i < s.len() && onam_usable(#[trigger] s[i]),
    decreases s.len(),
{
    if s.len() > 0 {
        let t = s.subrange(1, s.len() as int);
        lemma_onam_usable_any(t);
        if exists|i: int| 0 <= i < s.len() && onam_usable(#[trigger] s[i]) {
            let i = choose|i: int| 0 <= i < s.len() && onam_usable(#[trigger] s[i]);
            if i > 0 {
                assert(t[i - 1] == s[i]);
            }
        }
        if onam_usable_any(t) {
            let j = choose|j: int| 0 <= j < t.len() && onam_usable(#[trigger] t[j]);
            assert(s[j + 1] == t[j]);
        }
    }
}

proof fn lemma_onam_usable_any_member(s: Seq<(Sym, FieldView)>)
    ensures
        onam_usable_any_member(s) <==> exists|i: int| 0 <= i < s.len() && onam_usable(#[trigger] s[i].1),
    decreases s.len(),
{
    if s.len() > 0 {
        let t = s.subrange(1, s.len() as int);
        lemma_onam_usable_any_member(t);
        if exists|i: int| 0 <= i < s.len() && onam_usable(#[trigger] s[i].1) {
            let i = choose|i: int| 0 <= i < s.len() && onam_usable(#[trigger] s[i].1);
            if i > 0 {
                assert(t[i - 1] == s[i]);
            }
        }
        if onam_usable_any_member(t) {
            let j = choose|j: int| 0 <= j < t.len() && onam_usable(#[trigger] t[j].1);
            assert(s[j + 1] == t[j]);
        }
    }
}

/// Whether an SCOL `ONAM` value names a usable part.
pub fn scol_onam_is_usable(value: &FieldValue) -> (r: bool)
    ensures
        r == onam_usable(value@),
    decreases value,
{
    match value {
        FieldValue::FormKey(fk) => fk.local % 0x100_0000 != 0,
        FieldValue::Bytes(bytes) => bytes.len() >= 4 && read_u32_le(bytes.as_slice(), 0) % 0x100_0000 != 0,
        FieldValue::Uint(n) => *n % 0x100_0000 != 0,
        FieldValue::Int(n) => *n > 0 && *n % 0x100_0000 != 0,
        FieldValue::List(items) => {
            proof {
                lemma_list_view(*value);
                lemma_onam_usable_any(values_view(items@));
            }
            let mut i: usize = 0;
            #[verifier::loop_isolation(false)]
            while i < items.len()
                invariant
                    i <= items.len(),
                    *value is List,
                    value->List_0 == *items,
                    value@ == FieldView::List(values_view(items@)),
                    forall|j: int| 0 <= j < i ==> !onam_usable(#[trigger] values_view(items@)[j]),
                decreases items.len() - i,
            {
                proof {
                    let ghost all = value->List_0;
                    assert(decreases_to!(all => all@));
                    assert(decreases_to!(all@ => all@[i as int]));
                }
                if scol_onam_is_usable(&items[i]) {
                    assert(onam_usable(values_view(items@)[i as int]));
                    assert(onam_usable(value@));
                    return true;
                }
                i = i + 1;
            }
            false
        },
        FieldValue::Struct(fields) => {
            proof {
                lemma_struct_view(*value);
                lemma_onam_usable_any_member(named_view(fields@));
            }
            let mut i: usize = 0;
            #[verifier::loop_isolation(false)]
            while i < fields.len()
                invariant
                    i <= fields.len(),
                    *value is Struct,
                    value->Struct_0 == *fields,
                    value@ == FieldView::Struct(named_view(fields@)),
                    forall|j: int| 0 <= j < i ==> !onam_usable(#[trigger] named_view(fields@)[j].1),
                decreases fields.len() - i,
            {
                proof {
                    let ghost all = value->Struct_0;
                    assert(decreases_to!(all => all@));
                    assert(decreases_to!(all@ => all@[i as int]));
                    assert(decreases_to!(all@[i as int] => all@[i as int].1));
                }
                if scol_onam_is_usable(&fields[i].1) {
                    assert(onam_usable(named_view(fields@)[i as int].1));
                    assert(onam_usable(value@));
                    return true;
                }
                i = i + 1;
            }
            false
        },
        _ => false,
    }
}

/// Whether a byte is ASCII whitespace (tab, line feed, form feed, carriage
/// return, space).
pub open spec fn ascii_whitespace(b: u8) -> bool {
    b == 9 || b == 10 || b == 12 || b == 13 || b == 32
}

/// Whether a byte is one the text trim drops: NUL, space, tab, CR, LF.
pub open spec fn trim_byte(b: u8) -> bool {
    b == 0 || b == 32 || b == 9 || b == 13 || b == 10
}

/// Whether a value holds non-empty text: a resolved string with a byte that
/// trimming keeps, the bytes before the first NUL holding a non-whitespace
/// byte, or such text inside a list or struct.
pub open spec fn has_text(interner: StringInterner, v: FieldView) -> bool
    decreases v,
{
    match v {
        FieldView::String(sym) => interner.spec_resolve(sym) matches Some(s) && keeps_text(s),
        FieldView::Bytes(b) => holds_text(until_nul(b)),
        FieldView::List(items) => has_text_any(interner, items),
        FieldView::Struct(fields) => has_text_any_member(interner, fields),
        _ => false,
    }
}

/// Whether a string keeps a byte once NUL, space, tab, CR and LF are
/// trimmed from both ends.
pub open spec fn keeps_text(s: Seq<u8>) -> bool {
    exists|k: int| 0 <= k < s.len() && !trim_byte(#[trigger] s[k])
}

/// Whether a byte string holds a byte that is not ASCII whitespace.
pub open spec fn holds_text(s: Seq<u8>) -> bool {
    exists|k: int| 0 <= k < s.len() && !ascii_whitespace(#[trigger] s[k])
}

/// Whether some item holds non-empty text.
pub open spec fn has_text_any(interner: StringInterner, s: Seq<FieldView>) -> bool
    decreases s,
{
    s.len() > 0 && (has_text(interner, s[0]) || has_text_any(interner, s.subrange(1, s.len() as int)))
}

/// Whether some member holds non-empty text.
pub open spec fn has_text_any_member(interner: StringInterner, s: Seq<(Sym, FieldView)>) -> bool
    decreases s,
{
    s.len() > 0 && (has_text(interner, s[0].1) || has_text_any_member(
        interner,
        s.subrange(1, s.len() as int),
    ))
}

proof fn lemma_has_text_any(interner: StringInterner, s: Seq<FieldView>)
    ensures
        has_text_any(interner, s) <==> exists|i: int|
            0 <= i < s.len() && has_text(interner, #[trigger] s[i]),
    decreases s.len(),
{
    if s.len() > 0 {
        let t = s.subrange(1, s.len() as int);
        lemma_has_text_any(interner, t);
        if exists|i: int| 0 <= i < s.len() && has_text(interner, #[trigger] s[i]) {
            let i = choose|i: int| 0 <= i < s.len() && has_text(interner, #[trigger] s[i]);
            if i > 0 {
                assert(t[i - 1] == s[i]);
            }
        }
        if has_text_any(interner, t) {
            let j = choose|j: int| 0 <= j < t.len() && has_text(interner, #[trigger] t[j]);
            assert(s[j + 1] == t[j]);
        }
    }
}

proof fn lemma_has_text_any_member(interner: StringInterner, s: Seq<(Sym, FieldView)>)
    ensures
        has_text_any_member(interner, s) <==> exists|i: int|
            0 <= i < s.len() && has_text(interner, #[trigger] s[i].1),
    decreases s.len(),
{
    if s.len() > 0 {
        let t = s.subrange(1, s.len() as int);
        lemma_has_text_any_member(interner, t);
        if exists|i: int| 0 <= i < s.len() && has_text(interner, #[trigger] s[i].1) {
            let i = choose|i: int| 0 <= i < s.len() && has_text(interner, #[trigger] s[i].1);
            if i > 0 {
                assert(t[i - 1] == s[i]);
            }
        }
        if has_text_any_member(interner, t) {
            let j = choose|j: int| 0 <= j < t.len() && has_text(interner, #[trigger] t[j].1);
            assert(s[j + 1] == t[j]);
        }
    }
}

fn any_byte_not_trimmed(s: &[u8]) -> (r: bool)
    ensures
        r == keeps_text(s@),
{
    let mut k: usize = 0;
    while k < s.len()
        invariant
            k <= s.len(),
            forall|j: int| 0 <= j < k ==> trim_byte(#[trigger] s@[j]),
        decreases s.len() - k,
    {
        let b = s[k];
        if !(b == 0 || b == 32 || b == 9 || b == 13 || b == 10) {
            return true;
        }
        k = k + 1;
    }
    false
}

fn any_byte_not_whitespace(s: &[u8]) -> (r: bool)
    ensures
        r == holds_text(s@),
{
    let mut k: usize = 0;
    while k < s.len()
        invariant
            k <= s.len(),
            forall|j: int| 0 <= j < k ==> ascii_whitespace(#[trigger] s@[j]),
        decreases s.len() - k,
    {
        let b = s[k];
        if !(b == 9 || b == 10 || b == 12 || b == 13 || b == 32) {
            return true;
        }
        k = k + 1;
    }
    false
}

/// Whether a value holds non-empty text.
pub fn field_value_has_non_empty_text(value: &FieldValue, interner: &StringInterner) -> (r: bool)
    ensures
        r == has_text(*interner, value@),
    decreases value,
{
    match value {
        FieldValue::String(sym) => match interner.resolve(*sym) {
            Some(s) => {
                let r = any_byte_not_trimmed(s);
                assert(r == has_text(*interner, value@));
                r
            },
            None => false,
        },
        FieldValue::Bytes(bytes) => {
            let head = bytes_until_nul(bytes.as_slice());
            let r = any_byte_not_whitespace(head.as_slice());
            assert(r == has_text(*interner, value@));
            r
        },
        FieldValue::List(items) => {
            proof {
                lemma_list_view(*value);
                lemma_has_text_any(*interner, values_view(items@));
            }
            let mut i: usize = 0;
            #[verifier::loop_isolation(false)]
            while i < items.len()
                invariant
                    i <= items.len(),
                    *value is List,
                    value->List_0 == *items,
                    value@ == FieldView::List(values_view(items@)),
                    forall|j: int| 0 <= j < i ==> !has_text(*interner, #[trigger] values_view(items@)[j]),
                decreases items.len() - i,
            {
                proof {
                    let ghost all = value->List_0;
                    assert(decreases_to!(all => all@));
                    assert(decreases_to!(all@ => all@[i as int]));
                }
                if field_value_has_non_empty_text(&items[i], interner) {
                    assert(has_text(*interner, values_view(items@)[i as int]));
                    assert(has_text(*interner, value@));
                    return true;
                }
                i = i + 1;
            }
            false
        },
        FieldValue::Struct(fields) => {
            proof {
                lemma_struct_view(*value);
                lemma_has_text_any_member(*interner, named_view(fields@));
            }
            let mut i: usize = 0;
            #[verifier::loop_isolation(false)]
            while i < fields.len()
                invariant
                    i <= fields.len(),
                    *value is Struct,
                    value->Struct_0 == *fields,
                    value@ == FieldView::Struct(named_view(fields@)),
                    forall|j: int| 0 <= j < i ==> !has_text(*interner, #[trigger] named_view(fields@)[j].1),
                decreases fields.len() - i,
            {
                proof {
                    let ghost all = value->Struct_0;
                    assert(decreases_to!(all => all@));
                    assert(decreases_to!(all@ => all@[i as int]));
                    assert(decreases_to!(all@[i as int] => all@[i as int].1));
                }
                if field_value_has_non_empty_text(&fields[i].1, interner) {
                    assert(has_text(*interner, named_view(fields@)[i as int].1));
                    assert(has_text(*interner, value@));
                    return true;
                }
                i = i + 1;
            }
            false
        },
        _ => false,
    }
}

} // verus!

verus! {

/// A count stored into a value: integers take the count, byte strings take
/// it in their first four bytes (or become its four bytes when shorter), a
/// struct stores it into its first member (an empty struct is unchanged), and
/// any other value becomes the unsigned count.
pub open spec fn with_count(v: FieldView, count: u32) -> FieldView
    decreases v,
{
    match v {
        FieldView::Uint(_) => FieldView::Uint(count as u64),
        FieldView::Int(_) => FieldView::Int(count as i64),
        FieldView::Bytes(b) => if b.len() >= 4 {
            FieldView::Bytes(splice(b, 0, u32_bytes(count)))
        } else {
            FieldView::Bytes(u32_bytes(count))
        },
        FieldView::Struct(fields) => if fields.len() > 0 {
            FieldView::Struct(fields.update(0, (fields[0].0, with_count(fields[0].1, count))))
        } else {
            v
        },
        _ => FieldView::Uint(count as u64),
    }
}

/// Flag bits set in a value, stored the way `with_count` stores a count.
pub open spec fn with_bits_set(v: FieldView, mask: u32) -> FieldView
    decreases v,
{
    match v {
        FieldView::Uint(n) => FieldView::Uint(n | (mask as u64)),
        FieldView::Int(n) => FieldView::Int(((n as u32) | mask) as i64),
        FieldView::Bytes(b) => if b.len() >= 4 {
            FieldView::Bytes(splice(b, 0, u32_bytes(le32(b, 0) | mask)))
        } else {
            FieldView::Bytes(u32_bytes(mask))
        },
        FieldView::Struct(fields) => if fields.len() > 0 {
            FieldView::Struct(fields.update(0, (fields[0].0, with_bits_set(fields[0].1, mask))))
        } else {
            v
        },
        _ => FieldView::Uint(mask as u64),
    }
}

/// Flag bits cleared in a value; values with no `u32` reading are
/// unchanged.
pub open spec fn with_bits_cleared(v: FieldView, mask: u32) -> FieldView
    decreases v,
{
    match v {
        FieldView::Uint(n) => FieldView::Uint(n & !(mask as u64)),
        FieldView::Int(n) => FieldView::Int(((n as u32) & !mask) as i64),
        FieldView::Bytes(b) => if b.len() >= 4 {
            FieldView::Bytes(splice(b, 0, u32_bytes(le32(b, 0) & !mask)))
        } else {
            v
        },
        FieldView::Struct(fields) => if fields.len() > 0 {
            FieldView::Struct(
                fields.update(0, (fields[0].0, with_bits_cleared(fields[0].1, mask))),
            )
        } else {
            v
        },
        _ => v,
    }
}

/// Whether a value's `u32` reading has any of the mask bits: integers by
/// their low 32 bits, byte strings by their first four bytes, a struct by its
/// first member.
pub open spec fn has_bits(v: FieldView, mask: u32) -> bool
    decreases v,
{
    match v {
        FieldView::Uint(n) => (n as u32) & mask != 0,
        FieldView::Int(n) => (n as u32) & mask != 0,
        FieldView::Bytes(b) => b.len() >= 4 && le32(b, 0) & mask != 0,
        FieldView::Struct(fields) => fields.len() > 0 && has_bits(fields[0].1, mask),
        _ => false,
    }
}

/// Store a count into a value.
pub fn set_u32_count(value: &mut FieldValue, count: u32)
    ensures
        final(value)@ == with_count(old(value)@, count),
    decreases *old(value),
{
    match value {
        FieldValue::Uint(n) => {
            *n = count as u64;
        },
        FieldValue::Int(n) => {
            *n = count as i64;
        },
        FieldValue::Bytes(bytes) => {
            if bytes.len() >= 4 {
                write_u32_le(bytes, 0, count);
            } else {
                *bytes = u32_le_vec(count);
            }
        },
        FieldValue::Struct(fields) => {
            if fields.len() > 0 {
                let ghost before = fields@;
                proof {
                    lemma_members_view(before);
                }
                let (name, mut first) = fields.remove(0);
                proof {
                    assert(decreases_to!(before => before[0]));
                    assert(decreases_to!(before[0] => before[0].1));
                }
                set_u32_count(&mut first, count);
                fields.insert(0, (name, first));
                proof {
                    lemma_members_view(fields@);
                    assert(fields@ == before.update(0, (name, first)));
                    assert(named_view(fields@) =~= named_view(before).update(0, (name, first@)));
                }
            }
        },
        _ => {
            *value = FieldValue::Uint(count as u64);
        },
    }
}

/// The two little-endian bytes of `v`.
pub fn u16_le_vec(v: u16) -> (r: Vec<u8>)
    ensures
        r@ == crate::bytes::u16_bytes(v),
{
    let mut out: Vec<u8> = Vec::new();
    out.push((v % 256) as u8);
    out.push((v / 256) as u8);
    assert(out@ =~= crate::bytes::u16_bytes(v));
    out
}

/// The four little-endian bytes of `v`.
pub fn u32_le_vec(v: u32) -> (r: Vec<u8>)
    ensures
        r@ == u32_bytes(v),
{
    let mut out: Vec<u8> = Vec::new();
    out.push((v % 256) as u8);
    out.push(((v / 256) % 256) as u8);
    out.push(((v / 65536) % 256) as u8);
    out.push((v / 16777216) as u8);
    assert(out@ =~= u32_bytes(v));
    out
}

} // verus!

verus! {

/// Set flag bits in a value.
pub fn set_u32_bits(value: &mut FieldValue, mask: u32)
    ensures
        final(value)@ == with_bits_set(old(value)@, mask),
    decreases *old(value),
{
    match value {
        FieldValue::Uint(n) => {
            *n = *n | (mask as u64);
        },
        FieldValue::Int(n) => {
            *n = ((*n as u32) | mask) as i64;
        },
        FieldValue::Bytes(bytes) => {
            if bytes.len() >= 4 {
                let raw = read_u32_le(bytes.as_slice(), 0);
                write_u32_le(bytes, 0, raw | mask);
            } else {
                *bytes = u32_le_vec(mask);
            }
        },
        FieldValue::Struct(fields) => {
            if fields.len() > 0 {
                let ghost before = fields@;
                proof {
                    lemma_members_view(before);
                }
                let (name, mut first) = fields.remove(0);
                proof {
                    assert(decreases_to!(before => before[0]));
                    assert(decreases_to!(before[0] => before[0].1));
                }
                set_u32_bits(&mut first, mask);
                fields.insert(0, (name, first));
                proof {
                    lemma_members_view(fields@);
                    assert(fields@ == before.update(0, (name, first)));
                    assert(named_view(fields@) =~= named_view(before).update(0, (name, first@)));
                }
            }
        },
        _ => {
            *value = FieldValue::Uint(mask as u64);
        },
    }
}

/// Clear flag bits in a value.
pub fn clear_u32_bits(value: &mut FieldValue, mask: u32)
    ensures
        final(value)@ == with_bits_cleared(old(value)@, mask),
    decreases *old(value),
{
    match value {
        FieldValue::Uint(n) => {
            *n = *n & !(mask as u64);
        },
        FieldValue::Int(n) => {
            *n = ((*n as u32) & !mask) as i64;
        },
        FieldValue::Bytes(bytes) => {
            if bytes.len() >= 4 {
                let raw = read_u32_le(bytes.as_slice(), 0);
                write_u32_le(bytes, 0, raw & !mask);
            }
        },
        FieldValue::Struct(fields) => {
            if fields.len() > 0 {
                let ghost before = fields@;
                proof {
                    lemma_members_view(before);
                }
                let (name, mut first) = fields.remove(0);
                proof {
                    assert(decreases_to!(before => before[0]));
                    assert(decreases_to!(before[0] => before[0].1));
                }
                clear_u32_bits(&mut first, mask);
                fields.insert(0, (name, first));
                proof {
                    lemma_members_view(fields@);
                    assert(fields@ == before.update(0, (name, first)));
                    assert(named_view(fields@) =~= named_view(before).update(0, (name, first@)));
                }
            }
        },
        _ => {},
    }
}

/// Whether a value's `u32` reading has any of the mask bits.
pub fn u32_field_has_bits(value: &FieldValue, mask: u32) -> (r: bool)
    ensures
        r == has_bits(value@, mask),
    decreases value,
{
    match value {
        FieldValue::Uint(n) => (*n as u32) & mask != 0,
        FieldValue::Int(n) => (*n as u32) & mask != 0,
        FieldValue::Bytes(bytes) => bytes.len() >= 4 && read_u32_le(bytes.as_slice(), 0) & mask != 0,
        FieldValue::Struct(fields) => {
            proof {
                lemma_struct_view(*value);
            }
            if fields.len() == 0 {
                return false;
            }
            proof {
                let ghost all = value->Struct_0;
                assert(decreases_to!(all => all@));
                assert(decreases_to!(all@ => all@[0]));
                assert(decreases_to!(all@[0] => all@[0].1));
            }
            u32_field_has_bits(&fields[0].1, mask)
        },
        _ => false,
    }
}

/// The QUST alias `FNAM` "optional" flag.
pub open spec fn alias_optional_flag() -> u32 {
    2
}

/// Mark a QUST alias `FNAM` as optional.
pub fn mark_qust_alias_fnam_optional(value: &mut FieldValue)
    ensures
        final(value)@ == with_bits_set(old(value)@, alias_optional_flag()),
{
    set_u32_bits(value, 2);
}

/// A value zeroed as a count: integers become zero, byte strings get four
/// zero leading bytes (or become four zero bytes when shorter), anything else
/// becomes the unsigned zero.
pub open spec fn zeroed(v: FieldView) -> FieldView {
    match v {
        FieldView::Uint(_) => FieldView::Uint(0),
        FieldView::Int(_) => FieldView::Int(0),
        FieldView::Bytes(b) => if b.len() >= 4 {
            FieldView::Bytes(splice(b, 0, u32_bytes(0)))
        } else {
            FieldView::Bytes(u32_bytes(0))
        },
        _ => FieldView::Uint(0),
    }
}

/// Zero a count value.
pub fn set_u32_zero(value: &mut FieldValue)
    ensures
        final(value)@ == zeroed(old(value)@),
{
    match value {
        FieldValue::Uint(n) => {
            *n = 0;
        },
        FieldValue::Int(n) => {
            *n = 0;
        },
        FieldValue::Bytes(bytes) => {
            if bytes.len() >= 4 {
                write_u32_le(bytes, 0, 0);
            } else {
                *bytes = u32_le_vec(0);
            }
        },
        _ => {
            *value = FieldValue::Uint(0);
        },
    }
}

/// The value projected to a `u32` column: in-range integers keep their
/// variant, byte strings keep their first four bytes.
pub open spec fn projected_u32(v: FieldView) -> Option<FieldView> {
    match v {
        FieldView::Uint(n) => if n <= u32::MAX { Some(v) } else { None },
        FieldView::Int(n) => if 0 <= n <= u32::MAX { Some(v) } else { None },
        FieldView::Bytes(b) => if b.len() >= 4 { Some(FieldView::Bytes(b.take(4))) } else { None },
        _ => None,
    }
}

/// The value projected to a form-id column: form keys are kept, otherwise as
/// `projected_u32`.
pub open spec fn projected_formid(v: FieldView) -> Option<FieldView> {
    match v {
        FieldView::FormKey(_) => Some(v),
        _ => projected_u32(v),
    }
}

/// Project a value to a `u32` column.
pub fn project_u32_value(value: &FieldValue) -> (r: Option<FieldValue>)
    ensures
        r is Some <==> projected_u32(value@) is Some,
        r matches Some(v) ==> projected_u32(value@) == Some(v@),
{
    match value {
        FieldValue::Uint(n) => if *n <= 0xffff_ffff { Some(FieldValue::Uint(*n)) } else { None },
        FieldValue::Int(n) => if 0 <= *n && *n <= 0xffff_ffff { Some(FieldValue::Int(*n)) } else { None },
        FieldValue::Bytes(bytes) => if bytes.len() >= 4 {
            let mut out: Vec<u8> = Vec::new();
            out.push(bytes[0]);
            out.push(bytes[1]);
            out.push(bytes[2]);
            out.push(bytes[3]);
            assert(out@ =~= bytes@.take(4));
            Some(FieldValue::Bytes(out))
        } else {
            None
        },
        _ => None,
    }
}

/// Project a value to a form-id column.
pub fn project_formid_value(value: &FieldValue) -> (r: Option<FieldValue>)
    ensures
        r is Some <==> projected_formid(value@) is Some,
        r matches Some(v) ==> projected_formid(value@) == Some(v@),
{
    match value {
        FieldValue::FormKey(fk) => Some(FieldValue::FormKey(*fk)),
        _ => project_u32_value(value),
    }
}

} // verus!
