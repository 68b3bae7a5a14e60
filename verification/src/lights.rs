//! LIGH records: flags, near clip, flicker amplitude and the fixed FO4
//! `DATA` tail brought into FO4's range, radii made positive, cage-bulb
//! gobo lights kept small, and a fade value supplied. Floats are handled as
//! their IEEE-754 bit patterns.
use vstd::prelude::*;
use crate::text::{intern_all, intern_each, strs_bytes};
use crate::text::name_handle;
use vstd::string::StringSliceAdditionalSpecFns;
use vstd::pervasive::VecAdditionalExecFns;
use crate::bytes::{le32, lemma_le32_splice, read_u32_le, splice, u32_bytes, write_u32_le};
use crate::effects::Fo76Fo4Hook;
use crate::fields::{find_sig, first_with_sig, has_sig, push_entry, any_sig};
use crate::floatbits::{f32_bits_finite, f32_bits_lt, f32_finite, f32_lt};
use crate::model::{code, entries_view, lemma_struct_view, named_view, sig_is, tag, EntryView, FieldEntry,
    FieldValue, FieldView, Record, RecordView, SubrecordSig, Sym};
use crate::names::{find_member, name_index, name_is, positive_member, positive_u32, struct_field_name_is,
    field_value_positive_u32, positive_u32_struct_field};
use crate::text::{lower, starts_with, trim_nul, trim_nul_suffix, to_lower, bytes_eq, bytes_starts_with, utf8_valid, handle_of, lemma_handle_of, lit, StringInterner};

verus! {

/// `1.0`, `2.0`, `0.8`, `7.217` and `32.0` as `f32` bit patterns.
pub open spec fn f32_one() -> u32 {
    0x3f80_0000
}

pub open spec fn f32_two() -> u32 {
    0x4000_0000
}

pub open spec fn gobo_flicker_max() -> u32 {
    0x3f4c_cccd
}

pub open spec fn min_near_clip() -> u32 {
    0x40e6_f1aa
}

pub open spec fn cage_bulb_min_near_clip() -> u32 {
    0x4200_0000
}

/// FO4 light flags: only FO4's defined bits, `non_specular` cleared.
pub open spec fn fo4_light_flags(f: u32) -> u32 {
    (f & 0x003F_FFFF) & !0x0000_8000u32
}

/// Raw `DATA` with its flags (offset 12) brought to FO4's.
pub open spec fn raw_flags_normalized(b: Seq<u8>) -> Seq<u8> {
    if b.len() >= 16 {
        splice(b, 12, u32_bytes(fo4_light_flags(le32(b, 12))))
    } else {
        b
    }
}

/// Raw `DATA` with the float at `off` clamped down to `max` (a non-finite
/// value becomes `max`).
pub open spec fn raw_float_clamped(b: Seq<u8>, off: int, max: u32) -> Seq<u8> {
    if b.len() >= off + 4 && !(f32_finite(le32(b, off)) && !f32_lt(max, le32(b, off))) {
        splice(b, off, u32_bytes(max))
    } else {
        b
    }
}

/// Raw `DATA` with its near clip (offset 24) raised to `min` (a non-finite
/// value becomes `min`).
pub open spec fn raw_near_clip_raised(b: Seq<u8>, min: u32) -> Seq<u8> {
    if b.len() >= 28 && !(f32_finite(le32(b, 24)) && !f32_lt(le32(b, 24), min)) {
        splice(b, 24, u32_bytes(min))
    } else {
        b
    }
}

/// `v` written at `off` when the data reaches that far.
pub open spec fn raw_set(b: Seq<u8>, off: int, v: u32) -> Seq<u8> {
    if b.len() >= off + 4 {
        splice(b, off, u32_bytes(v))
    } else {
        b
    }
}

impl Fo76Fo4Hook {
    /// Bring raw light flags to FO4's.
    pub fn normalize_raw_light_flags(bytes: &mut Vec<u8>)
        ensures
            final(bytes)@ == raw_flags_normalized(old(bytes)@),
    {
        if bytes.len() < 16 {
            return;
        }
        let flags = read_u32_le(bytes.as_slice(), 12);
        write_u32_le(bytes, 12, (flags & 0x003F_FFFF) & !0x0000_8000u32);
    }

    /// Clamp the raw float at `offset` down to `maximum`.
    pub fn clamp_raw_light_float_max(bytes: &mut Vec<u8>, offset: usize, maximum: u32)
        requires
            offset + 4 <= usize::MAX,
        ensures
            final(bytes)@ == raw_float_clamped(old(bytes)@, offset as int, maximum),
    {
        if bytes.len() < offset + 4 {
            return;
        }
        let current = read_u32_le(bytes.as_slice(), offset);
        if f32_bits_finite(current) && !f32_bits_lt(maximum, current) {
            return;
        }
        write_u32_le(bytes, offset, maximum);
    }

    /// Raise the raw near clip to `minimum`.
    pub fn raise_raw_light_near_clip(bytes: &mut Vec<u8>, minimum: u32)
        ensures
            final(bytes)@ == raw_near_clip_raised(old(bytes)@, minimum),
    {
        if bytes.len() < 28 {
            return;
        }
        let current = read_u32_le(bytes.as_slice(), 24);
        if f32_bits_finite(current) && !f32_bits_lt(current, minimum) {
            return;
        }
        write_u32_le(bytes, 24, minimum);
    }
}

fn raw_set_exec(bytes: &mut Vec<u8>, off: usize, v: u32)
    requires
        off + 4 <= usize::MAX,
    ensures
        final(bytes)@ == raw_set(old(bytes)@, off as int, v),
{
    if bytes.len() >= off + 4 {
        write_u32_le(bytes, off, v);
    }
}

/// A member replaced by a float.
pub open spec fn member_float(m: Seq<(Sym, FieldView)>, j: int, v: u32) -> Seq<(Sym, FieldView)> {
    m.update(j, (m[j].0, FieldView::Float(v)))
}

/// The first member named `name`, when a float above `max` or not finite,
/// clamped to `max`.
pub open spec fn struct_clamped(interner: StringInterner, m: Seq<(Sym, FieldView)>, name: Seq<u8>, max: u32) -> Seq<(Sym, FieldView)> {
    match name_index(interner, m, name) {
        Some(j) => match m[j].1 {
            FieldView::Float(v) => if !f32_finite(v) || f32_lt(max, v) {
                member_float(m, j, max)
            } else {
                m
            },
            _ => m,
        },
        None => m,
    }
}

/// The first member named `name` raised to `min` unless it is a finite float
/// at least `min`; a member `name` holding `min` added when there is none.
pub open spec fn struct_raised(
    interner: StringInterner,
    held: Seq<Seq<u8>>,
    m: Seq<(Sym, FieldView)>,
    name: Seq<u8>,
    min: u32,
) -> Seq<(Sym, FieldView)> {
    match name_index(interner, m, name) {
        None => m.push((handle_of(held, name), FieldView::Float(min))),
        Some(j) => if (m[j].1 matches FieldView::Float(v) && f32_finite(v) && !f32_lt(v, min)) {
            m
        } else {
            member_float(m, j, min)
        },
    }
}

/// A member `name` holding `default` added when there is none.
pub open spec fn struct_ensured(
    interner: StringInterner,
    held: Seq<Seq<u8>>,
    m: Seq<(Sym, FieldView)>,
    name: Seq<u8>,
    default: u32,
) -> Seq<(Sym, FieldView)> {
    if name_index(interner, m, name) is Some {
        m
    } else {
        m.push((handle_of(held, name), FieldView::Float(default)))
    }
}

/// A `Flags` member holding a `u32` integer brought to FO4's flags.
pub open spec fn flags_member_normalized(interner: StringInterner, p: (Sym, FieldView)) -> (Sym, FieldView) {
    if name_is(interner, p.0, "Flags".spec_bytes()) {
        match p.1 {
            FieldView::Uint(v) => if v <= u32::MAX {
                (p.0, FieldView::Uint(fo4_light_flags(v as u32) as u64))
            } else {
                p
            },
            FieldView::Int(v) => if 0 <= v <= u32::MAX {
                (p.0, FieldView::Uint(fo4_light_flags(v as u32) as u64))
            } else {
                p
            },
            _ => p,
        }
    } else {
        p
    }
}

/// Every `Flags` member brought to FO4's flags.
pub open spec fn struct_flags_normalized(interner: StringInterner, m: Seq<(Sym, FieldView)>) -> Seq<(Sym, FieldView)> {
    m.map_values(|p: (Sym, FieldView)| flags_member_normalized(interner, p))
}

/// Whether a member is one FO4's light data has no room for.
pub open spec fn fo76_light_extra(interner: StringInterner, p: (Sym, FieldView)) -> bool {
    name_is(interner, p.0, "Value".spec_bytes()) || name_is(interner, p.0, "Bytes19".spec_bytes())
        || name_is(interner, p.0, "Weight".spec_bytes())
}

fn set_member_float(fields: &mut Vec<(Sym, FieldValue)>, j: usize, v: u32)
    requires
        j < old(fields)@.len(),
    ensures
        named_view(final(fields)@) == member_float(named_view(old(fields)@), j as int, v),
{
    let name = fields[j].0;
    let ghost before = named_view(fields@);
    fields.set(j, (name, FieldValue::Float(v)));
    assert(named_view(fields@) =~= member_float(before, j as int, v));
}

fn push_member(fields: &mut Vec<(Sym, FieldValue)>, name: Sym, value: FieldValue)
    ensures
        named_view(final(fields)@) == named_view(old(fields)@).push((name, value@)),
{
    let ghost before = named_view(fields@);
    let ghost vv = value@;
    fields.push((name, value));
    assert(named_view(fields@) =~= before.push((name, vv)));
}


impl Fo76Fo4Hook {
    /// Clamp the first member named `field_name` down to `maximum`.
    pub fn clamp_struct_float_field(
        interner: &StringInterner,
        fields: &mut Vec<(Sym, FieldValue)>,
        field_name: &str,
        maximum: u32,
    )
        ensures
            named_view(final(fields)@) == struct_clamped(*interner, named_view(old(fields)@), field_name.spec_bytes(), maximum),
    {
        let Some(j) = find_member(fields, interner, lit(field_name)) else {
            return;
        };
        let needs = match &fields[j].1 {
            FieldValue::Float(v) => !f32_bits_finite(*v) || f32_bits_lt(maximum, *v),
            _ => false,
        };
        assert(named_view(fields@)[j as int].1 == fields@[j as int].1@);
        if needs {
            set_member_float(fields, j, maximum);
        }
    }

    /// Raise the first member named `field_name` to `minimum`, adding it
    /// when absent.
    /// The names it writes are interned first.
    pub fn raise_struct_float_field(interner: &mut StringInterner,
        fields: &mut Vec<(Sym, FieldValue)>,
        field_name: &str,
        minimum: u32,)
        requires
            old(interner).wf(),
            old(interner)@.len() + 1 <= u32::MAX,
        ensures
            final(interner).wf(),
            final(interner)@ == intern_all(old(interner)@, seq![field_name.spec_bytes()]),
            named_view(final(fields)@) == struct_raised(
                *final(interner),
                final(interner)@,
                named_view(old(fields)@),
                field_name.spec_bytes(),
                minimum,
            ),
    {
        let names: Vec<&str> = vec![field_name];
        intern_each(interner, names.as_slice());
        proof {
            assert(strs_bytes(names@) =~= seq![field_name.spec_bytes()]);
            assert(interner@.contains(strs_bytes(names@)[0]));
        }
        Self::raise_struct_float_field_interned(interner, fields, field_name, minimum)
    }

    /// Raise the first member named `field_name` to `minimum`, adding it
    /// when absent.
    pub(crate) fn raise_struct_float_field_interned(
        interner: &StringInterner,
        fields: &mut Vec<(Sym, FieldValue)>,
        field_name: &str,
        minimum: u32,
    )
        requires
            interner.wf(),
            interner@.contains(field_name.spec_bytes()),
        ensures
            named_view(final(fields)@) == struct_raised(
                *interner,
                interner@,
                named_view(old(fields)@),
                field_name.spec_bytes(),
                minimum,
            ),
    {
        let Some(j) = find_member(fields, interner, lit(field_name)) else {
            push_member(fields, name_handle(interner, field_name), FieldValue::Float(minimum));
            return;
        };
        let keep = match &fields[j].1 {
            FieldValue::Float(v) => f32_bits_finite(*v) && !f32_bits_lt(*v, minimum),
            _ => false,
        };
        assert(named_view(fields@)[j as int].1 == fields@[j as int].1@);
        if !keep {
            set_member_float(fields, j, minimum);
        }
    }

    /// Add a member named `field_name` holding `default` when absent.
    /// The names it writes are interned first.
    pub fn ensure_struct_float_field(interner: &mut StringInterner,
        fields: &mut Vec<(Sym, FieldValue)>,
        field_name: &str,
        default: u32,)
        requires
            old(interner).wf(),
            old(interner)@.len() + 1 <= u32::MAX,
        ensures
            final(interner).wf(),
            final(interner)@ == intern_all(old(interner)@, seq![field_name.spec_bytes()]),
            named_view(final(fields)@) == struct_ensured(
                *final(interner),
                final(interner)@,
                named_view(old(fields)@),
                field_name.spec_bytes(),
                default,
            ),
    {
        let names: Vec<&str> = vec![field_name];
        intern_each(interner, names.as_slice());
        proof {
            assert(strs_bytes(names@) =~= seq![field_name.spec_bytes()]);
            assert(interner@.contains(strs_bytes(names@)[0]));
        }
        Self::ensure_struct_float_field_interned(interner, fields, field_name, default)
    }

    /// Add a member named `field_name` holding `default` when absent.
    pub(crate) fn ensure_struct_float_field_interned(
        interner: &StringInterner,
        fields: &mut Vec<(Sym, FieldValue)>,
        field_name: &str,
        default: u32,
    )
        requires
            interner.wf(),
            interner@.contains(field_name.spec_bytes()),
        ensures
            named_view(final(fields)@) == struct_ensured(
                *interner,
                interner@,
                named_view(old(fields)@),
                field_name.spec_bytes(),
                default,
            ),
    {
        if find_member(fields, interner, lit(field_name)).is_some() {
            return;
        }
        push_member(fields, name_handle(interner, field_name), FieldValue::Float(default));
    }

    /// Bring every integer `Flags` member to FO4's flags.
    pub fn normalize_struct_light_flags(interner: &StringInterner, fields: &mut Vec<(Sym, FieldValue)>)
        ensures
            named_view(final(fields)@) == struct_flags_normalized(*interner, named_view(old(fields)@)),
    {
        let ghost orig = named_view(fields@);
        let n = fields.len();
        let mut i: usize = 0;
        while i < n
            invariant
                n == fields@.len(),
                orig.len() == n,
                i <= n,
                forall|j: int| 0 <= j < i ==> #[trigger] named_view(fields@)[j] == flags_member_normalized(*interner, orig[j]),
                forall|j: int| i <= j < n ==> #[trigger] named_view(fields@)[j] == orig[j],
            decreases n - i,
        {
            assert(named_view(fields@)[i as int] == (fields@[i as int].0, fields@[i as int].1@));
            let name = fields[i].0;
            if struct_field_name_is(interner, name, lit("Flags")) {
                let current: Option<u32> = match &fields[i].1 {
                    FieldValue::Uint(v) => if *v <= 0xffff_ffff { Some(*v as u32) } else { None },
                    FieldValue::Int(v) => if 0 <= *v && *v <= 0xffff_ffff { Some(*v as u32) } else { None },
                    _ => None,
                };
                if let Some(flags) = current {
                    let ghost before = named_view(fields@);
                    let nv = FieldValue::Uint(((flags & 0x003F_FFFF) & !0x0000_8000u32) as u64);
                    let ghost nvv = nv@;
                    fields.set(i, (name, nv));
                    assert(named_view(fields@) =~= before.update(i as int, (name, nvv)));
                }
            }
            i = i + 1;
        }
        assert(named_view(fields@) =~= struct_flags_normalized(*interner, orig));
    }
}


/// The length of the Unicode `White_Space` character UTF-8 encodes at the
/// start of `s`, or 0 when it starts with another character.
pub open spec fn white_space_len(s: Seq<u8>) -> nat {
    if s.len() >= 1 && ((9 <= s[0] <= 13) || s[0] == 32) {
        1
    } else if s.len() >= 2 && s[0] == 0xC2 && (s[1] == 0x85 || s[1] == 0xA0) {
        2
    } else if s.len() >= 3 && s[0] == 0xE1 && s[1] == 0x9A && s[2] == 0x80 {
        3
    } else if s.len() >= 3 && s[0] == 0xE2 && s[1] == 0x80 && ((0x80 <= s[2] <= 0x8A) || s[2] == 0xA8
        || s[2] == 0xA9 || s[2] == 0xAF) {
        3
    } else if s.len() >= 3 && s[0] == 0xE2 && s[1] == 0x81 && s[2] == 0x9F {
        3
    } else if s.len() >= 3 && s[0] == 0xE3 && s[1] == 0x80 && s[2] == 0x80 {
        3
    } else {
        0
    }
}

/// Whether a UTF-8 string is nothing but Unicode white space (what
/// `str::trim` leaves empty).
pub open spec fn all_white_space(s: Seq<u8>) -> bool
    decreases s.len(),
{
    if s.len() == 0 {
        true
    } else if white_space_len(s) == 0 {
        false
    } else {
        all_white_space(s.skip(white_space_len(s) as int))
    }
}

fn white_space_len_exec(s: &[u8], i: usize) -> (r: usize)
    requires
        i <= s@.len(),
    ensures
        r == white_space_len(s@.skip(i as int)),
{
    let ghost t = s@.skip(i as int);
    let n = s.len() - i;
    if n >= 1 && ((9 <= s[i] && s[i] <= 13) || s[i] == 32) {
        1
    } else if n >= 2 && s[i] == 0xC2 && (s[i + 1] == 0x85 || s[i + 1] == 0xA0) {
        2
    } else if n >= 3 && s[i] == 0xE1 && s[i + 1] == 0x9A && s[i + 2] == 0x80 {
        3
    } else if n >= 3 && s[i] == 0xE2 && s[i + 1] == 0x80 && ((0x80 <= s[i + 2] && s[i + 2] <= 0x8A) || s[i + 2]
        == 0xA8 || s[i + 2] == 0xA9 || s[i + 2] == 0xAF) {
        3
    } else if n >= 3 && s[i] == 0xE2 && s[i + 1] == 0x81 && s[i + 2] == 0x9F {
        3
    } else if n >= 3 && s[i] == 0xE3 && s[i + 1] == 0x80 && s[i + 2] == 0x80 {
        3
    } else {
        0
    }
}

fn is_all_white_space(s: &[u8]) -> (r: bool)
    ensures
        r == all_white_space(s@),
{
    let mut i: usize = 0;
    assert(s@.skip(0) =~= s@);
    while i < s.len()
        invariant
            i <= s@.len(),
            all_white_space(s@) == all_white_space(s@.skip(i as int)),
        decreases s@.len() - i,
    {
        let w = white_space_len_exec(s, i);
        if w == 0 {
            return false;
        }
        assert(s@.skip(i as int).skip(w as int) =~= s@.skip(i + w));
        i = i + w;
    }
    assert(s@.skip(i as int) =~= Seq::<u8>::empty());
    true
}

/// Whether an entry is a `NAM0` gobo mask that names something.
pub open spec fn gobo_entry(interner: StringInterner, e: EntryView) -> bool {
    e.sig == code('N', 'A', 'M', '0') && match e.value {
        FieldView::String(sym) => interner.spec_resolve(sym) matches Some(p) && !all_white_space(p),
        FieldView::Bytes(b) => trim_nul(b).len() > 0,
        _ => false,
    }
}

/// Whether a light carries a gobo mask.
pub open spec fn has_gobo(interner: StringInterner, r: RecordView) -> bool {
    exists|j: int| 0 <= j < r.fields.len() && #[trigger] gobo_entry(interner, r.fields[j])
}

/// A cage-bulb gobo path: with `\` read as `/`, case ignored and a leading
/// `data/` dropped, it names the FO4 cage-bulb gobo texture.
pub open spec fn cage_bulb_path(p: Seq<u8>) -> bool {
    let n = lower(p.map_values(|c: u8| if c == 92 { 47u8 } else { c }));
    (if starts_with(n, "data/".spec_bytes()) { n.skip("data/".spec_bytes().len() as int) } else { n }) == "textures/effects/gobos/cagebulbgobo01_d.dds".spec_bytes()
}

/// Whether an entry is a `NAM0` naming the cage-bulb gobo.
pub open spec fn cage_bulb_entry(interner: StringInterner, e: EntryView) -> bool {
    e.sig == code('N', 'A', 'M', '0') && match e.value {
        FieldView::String(sym) => interner.spec_resolve(sym) matches Some(p) && cage_bulb_path(p),
        FieldView::Bytes(b) => vstd::utf8::valid_utf8(trim_nul(b)) && cage_bulb_path(trim_nul(b)),
        _ => false,
    }
}

/// Whether a light uses the cage-bulb gobo.
pub open spec fn has_cage_bulb_gobo(interner: StringInterner, r: RecordView) -> bool {
    exists|j: int| 0 <= j < r.fields.len() && #[trigger] cage_bulb_entry(interner, r.fields[j])
}

fn gobo_entry_exec(interner: &StringInterner, e: &FieldEntry) -> (r: bool)
    ensures
        r == gobo_entry(*interner, e@),
{
    if !sig_is(e.sig.0, 'N', 'A', 'M', '0') {
        return false;
    }
    match &e.value {
        FieldValue::String(sym) => match interner.resolve(*sym) {
            Some(p) => !is_all_white_space(p),
            None => false,
        },
        FieldValue::Bytes(b) => trim_nul_suffix(b.as_slice()).len() > 0,
        _ => false,
    }
}

impl Fo76Fo4Hook {
    /// Whether a cage-bulb gobo path names the FO4 cage-bulb texture.
    pub fn is_cage_bulb_gobo_path(path: &[u8]) -> (r: bool)
        ensures
            r == cage_bulb_path(path@),
    {
        let mut slashed: Vec<u8> = Vec::new();
        let mut i: usize = 0;
        while i < path.len()
            invariant
                i <= path@.len(),
                slashed@ == path@.take(i as int).map_values(|c: u8| if c == 92 { 47u8 } else { c }),
            decreases path@.len() - i,
        {
            let c = path[i];
            slashed.push(if c == 92 { 47u8 } else { c });
            i = i + 1;
            assert(slashed@ =~= path@.take(i as int).map_values(|c: u8| if c == 92 { 47u8 } else { c }));
        }
        assert(path@.take(path@.len() as int) =~= path@);
        let n = to_lower(slashed.as_slice());
        let target = lit("textures/effects/gobos/cagebulbgobo01_d.dds");
        let prefix = lit("data/");
        if bytes_starts_with(n.as_slice(), prefix) {
            let start = prefix.len();
            let mut rest: Vec<u8> = Vec::new();
            let mut k: usize = start;
            assert(rest@ =~= n@.subrange(start as int, start as int));
            while k < n.len()
                invariant
                    start <= k <= n@.len(),
                    rest@ == n@.subrange(start as int, k as int),
                decreases n@.len() - k,
            {
                rest.push(n[k]);
                k = k + 1;
                assert(rest@ =~= n@.subrange(start as int, k as int));
            }
            assert(n@.skip(start as int) =~= n@.subrange(start as int, n@.len() as int));
            bytes_eq(rest.as_slice(), target)
        } else {
            bytes_eq(n.as_slice(), target)
        }
    }

    /// Whether a light carries a gobo mask.
    pub fn light_has_gobo(interner: &StringInterner, record: &Record) -> (r: bool)
        ensures
            r == has_gobo(*interner, record@),
    {
        let mut i: usize = 0;
        while i < record.fields.len()
            invariant
                i <= record.fields@.len(),
                forall|j: int| 0 <= j < i ==> !#[trigger] gobo_entry(*interner, record@.fields[j]),
            decreases record.fields@.len() - i,
        {
            assert(record@.fields[i as int] == record.fields@[i as int]@);
            if gobo_entry_exec(interner, &record.fields[i]) {
                return true;
            }
            i = i + 1;
        }
        false
    }

    /// Whether a light uses the cage-bulb gobo.
    pub fn record_has_cage_bulb_gobo(interner: &StringInterner, record: &Record) -> (r: bool)
        ensures
            r == has_cage_bulb_gobo(*interner, record@),
    {
        let mut i: usize = 0;
        while i < record.fields.len()
            invariant
                i <= record.fields@.len(),
                forall|j: int| 0 <= j < i ==> !#[trigger] cage_bulb_entry(*interner, record@.fields[j]),
            decreases record.fields@.len() - i,
        {
            assert(record@.fields[i as int] == record.fields@[i as int]@);
            let e = &record.fields[i];
            if sig_is(e.sig.0, 'N', 'A', 'M', '0') {
                let hit = match &e.value {
                    FieldValue::String(sym) => match interner.resolve(*sym) {
                        Some(p) => Self::is_cage_bulb_gobo_path(p),
                        None => false,
                    },
                    FieldValue::Bytes(b) => {
                        let t = trim_nul_suffix(b.as_slice());
                        utf8_valid(t.as_slice()) && Self::is_cage_bulb_gobo_path(t.as_slice())
                    },
                    _ => false,
                };
                if hit {
                    assert(cage_bulb_entry(*interner, record@.fields[i as int]));
                    return true;
                }
            }
            i = i + 1;
        }
        false
    }
}


/// Raw light data brought to FO4's: flags, near clip, flicker amplitude
/// (clamped to `amp`), fixed scalar, exponent, value and weight, and at most
/// 64 bytes.
pub open spec fn raw_light_data(b: Seq<u8>, amp: u32) -> Seq<u8> {
    let b1 = raw_flags_normalized(b);
    let b2 = raw_near_clip_raised(b1, min_near_clip());
    let b3 = raw_float_clamped(b2, 32, amp);
    let b4 = raw_set(b3, 44, f32_one());
    let b5 = raw_set(b4, 48, f32_two());
    let b6 = raw_set(b5, 56, 0);
    let b7 = raw_set(b6, 60, 0);
    if b7.len() > 64 {
        b7.take(64)
    } else {
        b7
    }
}

/// Struct light data brought to FO4's: FO76-only members dropped, scalar and
/// exponent supplied, flicker amplitude clamped to `amp`, near clip raised,
/// flags normalized.
pub open spec fn struct_light_data(interner: StringInterner, held: Seq<Seq<u8>>, m: Seq<(Sym, FieldView)>, amp: u32) -> Seq<(Sym, FieldView)> {
    let m1 = m.filter(|p: (Sym, FieldView)| !fo76_light_extra(interner, p));
    let m2 = struct_ensured(interner, held, m1, "Scalar".spec_bytes(), f32_one());
    let m3 = struct_ensured(interner, held, m2, "Exponent".spec_bytes(), f32_two());
    let m4 = struct_clamped(interner, m3, "FlickerEffectIntensityAmplitude".spec_bytes(), amp);
    let m5 = struct_raised(interner, held, m4, "NearClip".spec_bytes(), min_near_clip());
    struct_flags_normalized(interner, m5)
}

/// A `DATA` entry of a light brought to FO4's.
pub open spec fn light_data_entry(interner: StringInterner, held: Seq<Seq<u8>>, e: EntryView, amp: u32) -> EntryView {
    if e.sig == code('D', 'A', 'T', 'A') {
        match e.value {
            FieldView::Bytes(b) => EntryView { value: FieldView::Bytes(raw_light_data(b, amp)), ..e },
            FieldView::Struct(m) => EntryView { value: FieldView::Struct(struct_light_data(interner, held, m, amp)), ..e },
            _ => e,
        }
    } else {
        e
    }
}

/// The flicker ceiling: tighter for gobo lights.
pub open spec fn flicker_max(interner: StringInterner, r: RecordView) -> u32 {
    if has_gobo(interner, r) {
        gobo_flicker_max()
    } else {
        f32_two()
    }
}

/// A light with every `DATA` brought to FO4's.
pub open spec fn light_data_normalized(interner: StringInterner, r: RecordView) -> RecordView {
    RecordView {
        fields: r.fields.map_values(|e: EntryView| light_data_entry(interner, interner@, e, flicker_max(interner, r))),
        ..r
    }
}

fn without_light_extras(interner: &StringInterner, fields: Vec<(Sym, FieldValue)>) -> (r: Vec<(Sym, FieldValue)>)
    ensures
        named_view(r@) == named_view(fields@).filter(|p: (Sym, FieldView)| !fo76_light_extra(*interner, p)),
{
    let ghost m = named_view(fields@);
    let mut fields = fields;
    let mut kept: Vec<(Sym, FieldValue)> = Vec::new();
    let n = fields.len();
    let mut i: usize = 0;
    while i < n
        invariant
            n == m.len(),
            i <= n,
            fields@.len() == n - i,
            forall|j: int| 0 <= j < fields@.len() ==> (fields@[j].0, fields@[j].1@) == m[i + j],
            named_view(kept@) == m.take(i as int).filter(|p: (Sym, FieldView)| !fo76_light_extra(*interner, p)),
        decreases n - i,
    {
        let p = fields.remove(0);
        proof {
            reveal(Seq::filter);
            assert(m.take(i + 1).drop_last() =~= m.take(i as int));
            assert(m.take(i + 1).last() == m[i as int]);
            assert((p.0, p.1@) == m[i as int]);
        }
        let extra = struct_field_name_is(interner, p.0, lit("Value")) || struct_field_name_is(interner, p.0, lit("Bytes19"))
            || struct_field_name_is(interner, p.0, lit("Weight"));
        assert(extra == fo76_light_extra(*interner, m[i as int]));
        if !extra {
            let ghost before = named_view(kept@);
            let ghost pv = (p.0, p.1@);
            kept.push(p);
            assert(named_view(kept@) =~= before.push(pv));
        }
        i = i + 1;
    }
    assert(m.take(n as int) =~= m);
    kept
}

fn light_data_entry_exec(interner: &StringInterner, e: FieldEntry, amp: u32) -> (r: FieldEntry)
    requires
        interner.wf(),
        interner@.contains("Scalar".spec_bytes()),
        interner@.contains("Exponent".spec_bytes()),
        interner@.contains("NearClip".spec_bytes()),
    ensures
        r@ == light_data_entry(*interner, interner@, e@, amp),
{
    if !sig_is(e.sig.0, 'D', 'A', 'T', 'A') {
        return e;
    }
    let FieldEntry { sig, value } = e;
    proof {
        if value is Struct {
            lemma_struct_view(value);
        }
    }
    let value = match value {
        FieldValue::Bytes(bytes) => {
            let mut bytes = bytes;
            Fo76Fo4Hook::normalize_raw_light_flags(&mut bytes);
            Fo76Fo4Hook::raise_raw_light_near_clip(&mut bytes, 0x40e6_f1aa);
            Fo76Fo4Hook::clamp_raw_light_float_max(&mut bytes, 32, amp);
            raw_set_exec(&mut bytes, 44, 0x3f80_0000);
            raw_set_exec(&mut bytes, 48, 0x4000_0000);
            raw_set_exec(&mut bytes, 56, 0);
            raw_set_exec(&mut bytes, 60, 0);
            if bytes.len() > 64 {
                bytes.truncate(64);
            }
            FieldValue::Bytes(bytes)
        },
        FieldValue::Struct(fields) => {
            let ghost m = named_view(fields@);
            let mut fields = without_light_extras(interner, fields);
            Fo76Fo4Hook::ensure_struct_float_field_interned(interner, &mut fields, "Scalar", 0x3f80_0000);
            Fo76Fo4Hook::ensure_struct_float_field_interned(interner, &mut fields, "Exponent", 0x4000_0000);
            Fo76Fo4Hook::clamp_struct_float_field(interner, &mut fields, "FlickerEffectIntensityAmplitude", amp);
            Fo76Fo4Hook::raise_struct_float_field_interned(interner, &mut fields, "NearClip", 0x40e6_f1aa);
            Fo76Fo4Hook::normalize_struct_light_flags(interner, &mut fields);
            let v = FieldValue::Struct(fields);
            proof {
                lemma_struct_view(v);
            }
            v
        },
        other => other,
    };
    proof {
        if value is Struct {
            lemma_struct_view(value);
        }
    }
    FieldEntry { sig: sig, value: value }
}

impl Fo76Fo4Hook {
    /// Bring a light's `DATA` to FO4's ranges and layout. The member names
    /// the struct form may gain are interned first.
    pub fn normalize_light_data_for_fo4(interner: &mut StringInterner, record: &mut Record)
        requires
            old(interner).wf(),
            old(interner)@.len() + 3 <= u32::MAX,
        ensures
            final(interner).wf(),
            final(interner)@ == intern_all(old(interner)@, seq!["Scalar".spec_bytes(), "Exponent".spec_bytes(), "NearClip".spec_bytes()]),
            old(record)@.sig != code('L', 'I', 'G', 'H') ==> final(record)@ == old(record)@,
            old(record)@.sig == code('L', 'I', 'G', 'H') ==> final(record)@ == light_data_normalized(*final(interner), old(record)@),
    {
        let names: Vec<&str> = vec!["Scalar", "Exponent", "NearClip"];
        intern_each(interner, names.as_slice());
        proof {
            assert(strs_bytes(names@) =~= seq!["Scalar".spec_bytes(), "Exponent".spec_bytes(), "NearClip".spec_bytes()]);
            assert(interner@.contains(strs_bytes(names@)[0]));
            assert(interner@.contains(strs_bytes(names@)[1]));
            assert(interner@.contains(strs_bytes(names@)[2]));
        }
        Self::normalize_light_data_for_fo4_interned(interner, record)
    }

    /// Bring a light's `DATA` to FO4's ranges and layout. The member names
    /// the struct form may gain must be held already, so nothing is
    /// interned.
    pub(crate) fn normalize_light_data_for_fo4_interned(interner: &StringInterner, record: &mut Record)
        requires
            interner.wf(),
            interner@.contains("Scalar".spec_bytes()),
            interner@.contains("Exponent".spec_bytes()),
            interner@.contains("NearClip".spec_bytes()),
        ensures
            old(record)@.sig != code('L', 'I', 'G', 'H') ==> final(record)@ == old(record)@,
            old(record)@.sig == code('L', 'I', 'G', 'H') ==> final(record)@ == light_data_normalized(*interner, old(record)@),
    {
        if !sig_is(record.sig.0, 'L', 'I', 'G', 'H') {
            return;
        }
        let amp: u32 = if Self::light_has_gobo(interner, record) { 0x3f4c_cccd } else { 0x4000_0000 };
        let ghost r0 = record@;
        let ghost orig = r0.fields;
        let mut rest: Vec<FieldEntry> = Vec::new();
        core::mem::swap(&mut record.fields, &mut rest);
        let n = rest.len();
        let mut idx: usize = 0;
        while idx < n
            invariant
                orig.len() == n,
                idx <= n,
                rest@.len() == n - idx,
                forall|j: int| 0 <= j < rest@.len() ==> rest@[j]@ == orig[idx + j],
                record.fields@.len() == idx,
                forall|j: int| 0 <= j < idx ==> #[trigger] record.fields@[j]@ == light_data_entry(
                    *interner,
                    interner@,
                    orig[j],
                    flicker_max(*interner, r0),
                ),
                interner.wf(),
                interner@.contains("Scalar".spec_bytes()),
                interner@.contains("Exponent".spec_bytes()),
                interner@.contains("NearClip".spec_bytes()),
                amp == flicker_max(*interner, r0),
                record@.sig == r0.sig,
                record@.form_key == r0.form_key,
                record@.eid == r0.eid,
            decreases n - idx,
        {
            let e = rest.remove(0);
            let m = light_data_entry_exec(interner, e, amp);
            record.fields.push(m);
            idx = idx + 1;
        }
        assert(record@.fields =~= light_data_normalized(*interner, r0).fields);
    }
}


/// A radius fallback: at least 1 and at most 2048.
pub open spec fn clamp_radius(v: u32) -> u32 {
    if v < 1 {
        1
    } else if v > 2048 {
        2048
    } else {
        v
    }
}

/// Raw light data with a zero radius (offset 4) replaced by the light's
/// value (offset 56, or 1 when absent) clamped to 1..=2048.
pub open spec fn raw_radius_ensured(b: Seq<u8>) -> Seq<u8> {
    if b.len() >= 8 && le32(b, 4) == 0 {
        let fallback = if b.len() >= 60 { le32(b, 56) } else { 1 };
        splice(b, 4, u32_bytes(clamp_radius(fallback)))
    } else {
        b
    }
}

/// Struct light data whose radius is not a positive `u32` gets the light's
/// positive value (or 1) capped at 2048; a missing radius is added.
pub open spec fn struct_radius_ensured(interner: StringInterner, held: Seq<Seq<u8>>, m: Seq<(Sym, FieldView)>) -> Seq<(Sym, FieldView)> {
    let v = match positive_member(interner, m, "Value".spec_bytes()) {
        Some(v) => v,
        None => 1u32,
    };
    let fallback = if v > 2048 { 2048u32 } else { v };
    match name_index(interner, m, "Radius".spec_bytes()) {
        Some(j) => if positive_u32(m[j].1) is None {
            m.update(j, (m[j].0, FieldView::Uint(fallback as u64)))
        } else {
            m
        },
        None => m.push((handle_of(held, "Radius".spec_bytes()), FieldView::Uint(fallback as u64))),
    }
}

/// A `DATA` entry with its radius made positive.
pub open spec fn radius_entry(interner: StringInterner, held: Seq<Seq<u8>>, e: EntryView) -> EntryView {
    if e.sig == code('D', 'A', 'T', 'A') {
        match e.value {
            FieldView::Bytes(b) => EntryView { value: FieldView::Bytes(raw_radius_ensured(b)), ..e },
            FieldView::Struct(m) => EntryView { value: FieldView::Struct(struct_radius_ensured(interner, held, m)), ..e },
            _ => e,
        }
    } else {
        e
    }
}

/// Raw cage-bulb light data: a radius above 256 capped at 256 and the near
/// clip raised to 32.
pub open spec fn raw_cage_bulb(b: Seq<u8>) -> Seq<u8> {
    if b.len() >= 8 && le32(b, 4) > 256 {
        raw_near_clip_raised(splice(b, 4, u32_bytes(256)), cage_bulb_min_near_clip())
    } else {
        b
    }
}

/// Struct cage-bulb light data: a positive radius above 256 capped at 256
/// and the near clip raised to 32.
pub open spec fn struct_cage_bulb(interner: StringInterner, held: Seq<Seq<u8>>, m: Seq<(Sym, FieldView)>) -> Seq<(Sym, FieldView)> {
    match name_index(interner, m, "Radius".spec_bytes()) {
        Some(j) => match positive_u32(m[j].1) {
            Some(r) => if r > 256 {
                struct_raised(
                    interner,
                    held,
                    m.update(j, (m[j].0, FieldView::Uint(256))),
                    "NearClip".spec_bytes(),
                    cage_bulb_min_near_clip(),
                )
            } else {
                m
            },
            None => m,
        },
        None => m,
    }
}

/// A `DATA` entry of a cage-bulb light made small.
pub open spec fn cage_bulb_entry_data(interner: StringInterner, held: Seq<Seq<u8>>, e: EntryView) -> EntryView {
    if e.sig == code('D', 'A', 'T', 'A') {
        match e.value {
            FieldView::Bytes(b) => EntryView { value: FieldView::Bytes(raw_cage_bulb(b)), ..e },
            FieldView::Struct(m) => EntryView { value: FieldView::Struct(struct_cage_bulb(interner, held, m)), ..e },
            _ => e,
        }
    } else {
        e
    }
}

fn radius_entry_exec(interner: &StringInterner, e: FieldEntry) -> (r: FieldEntry)
    requires
        interner.wf(),
        interner@.contains("Radius".spec_bytes()),
    ensures
        r@ == radius_entry(*interner, interner@, e@),
{
    if !sig_is(e.sig.0, 'D', 'A', 'T', 'A') {
        return e;
    }
    let FieldEntry { sig, value } = e;
    proof {
        if value is Struct {
            lemma_struct_view(value);
        }
    }
    let value = match value {
        FieldValue::Bytes(bytes) => {
            let mut bytes = bytes;
            if bytes.len() >= 8 && read_u32_le(bytes.as_slice(), 4) == 0 {
                let fallback = if bytes.len() >= 60 { read_u32_le(bytes.as_slice(), 56) } else { 1 };
                let c = if fallback < 1 { 1 } else if fallback > 2048 { 2048 } else { fallback };
                write_u32_le(&mut bytes, 4, c);
            }
            FieldValue::Bytes(bytes)
        },
        FieldValue::Struct(fields) => {
            let mut fields = fields;
            let v = match positive_u32_struct_field(interner, &fields, lit("Value")) {
                Some(v) => v,
                None => 1,
            };
            let fallback: u32 = if v > 2048 { 2048 } else { v };
            match find_member(&fields, interner, lit("Radius")) {
                Some(j) => {
                    assert(named_view(fields@)[j as int].1 == fields@[j as int].1@);
                    if field_value_positive_u32(&fields[j].1).is_none() {
                        let name = fields[j].0;
                        let ghost before = named_view(fields@);
                        fields.set(j, (name, FieldValue::Uint(fallback as u64)));
                        assert(named_view(fields@) =~= before.update(j as int, (name, FieldView::Uint(fallback as u64))));
                    }
                },
                None => {
                    push_member(&mut fields, name_handle(interner, "Radius"), FieldValue::Uint(fallback as u64));
                },
            }
            let v = FieldValue::Struct(fields);
            proof {
                lemma_struct_view(v);
            }
            v
        },
        other => other,
    };
    proof {
        if value is Struct {
            lemma_struct_view(value);
        }
    }
    FieldEntry { sig: sig, value: value }
}

fn cage_bulb_entry_exec(interner: &StringInterner, e: FieldEntry) -> (r: FieldEntry)
    requires
        interner.wf(),
        interner@.contains("NearClip".spec_bytes()),
    ensures
        r@ == cage_bulb_entry_data(*interner, interner@, e@),
{
    if !sig_is(e.sig.0, 'D', 'A', 'T', 'A') {
        return e;
    }
    let FieldEntry { sig, value } = e;
    proof {
        if value is Struct {
            lemma_struct_view(value);
        }
    }
    let value = match value {
        FieldValue::Bytes(bytes) => {
            let mut bytes = bytes;
            if bytes.len() >= 8 && read_u32_le(bytes.as_slice(), 4) > 256 {
                write_u32_le(&mut bytes, 4, 256);
                Fo76Fo4Hook::raise_raw_light_near_clip(&mut bytes, 0x4200_0000);
            }
            FieldValue::Bytes(bytes)
        },
        FieldValue::Struct(fields) => {
            let mut fields = fields;
            if let Some(j) = find_member(&fields, interner, lit("Radius")) {
                assert(named_view(fields@)[j as int].1 == fields@[j as int].1@);
                if let Some(radius) = field_value_positive_u32(&fields[j].1) {
                    if radius > 256 {
                        let name = fields[j].0;
                        let ghost before = named_view(fields@);
                        fields.set(j, (name, FieldValue::Uint(256)));
                        assert(named_view(fields@) =~= before.update(j as int, (name, FieldView::Uint(256))));
                        Fo76Fo4Hook::raise_struct_float_field_interned(interner, &mut fields, "NearClip", 0x4200_0000);
                    }
                }
            }
            let v = FieldValue::Struct(fields);
            proof {
                lemma_struct_view(v);
            }
            v
        },
        other => other,
    };
    proof {
        if value is Struct {
            lemma_struct_view(value);
        }
    }
    FieldEntry { sig: sig, value: value }
}

/// A light with every `DATA` radius made positive.
pub open spec fn light_radius_ensured(interner: StringInterner, r: RecordView) -> RecordView {
    RecordView { fields: r.fields.map_values(|e: EntryView| radius_entry(interner, interner@, e)), ..r }
}

/// A cage-bulb light with every `DATA` made small.
pub open spec fn cage_bulb_normalized(interner: StringInterner, r: RecordView) -> RecordView {
    RecordView { fields: r.fields.map_values(|e: EntryView| cage_bulb_entry_data(interner, interner@, e)), ..r }
}

/// A light without a fade value gets `FNAM` 1.0 after its first `DATA` (or
/// at the end).
pub open spec fn fade_ensured(r: RecordView) -> RecordView {
    let fade = EntryView { sig: code('F', 'N', 'A', 'M'), value: FieldView::Float(f32_one()) };
    if r.sig != code('L', 'I', 'G', 'H') || has_sig(r.fields, code('F', 'N', 'A', 'M')) {
        r
    } else {
        RecordView {
            fields: match first_with_sig(r.fields, code('D', 'A', 'T', 'A')) {
                Some(d) => r.fields.insert(d + 1, fade),
                None => r.fields.push(fade),
            },
            ..r
        }
    }
}

impl Fo76Fo4Hook {
    /// Give every light `DATA` a positive radius. `Radius` is interned
    /// first.
    pub fn ensure_light_radius(interner: &mut StringInterner, record: &mut Record)
        requires
            old(interner).wf(),
            old(interner)@.len() + 1 <= u32::MAX,
        ensures
            final(interner).wf(),
            final(interner)@ == intern_all(old(interner)@, seq!["Radius".spec_bytes()]),
            old(record)@.sig != code('L', 'I', 'G', 'H') ==> final(record)@ == old(record)@,
            old(record)@.sig == code('L', 'I', 'G', 'H') ==> final(record)@ == light_radius_ensured(*final(interner), old(record)@),
    {
        let names: Vec<&str> = vec!["Radius"];
        intern_each(interner, names.as_slice());
        proof {
            assert(strs_bytes(names@) =~= seq!["Radius".spec_bytes()]);
            assert(interner@.contains(strs_bytes(names@)[0]));
        }
        Self::ensure_light_radius_interned(interner, record)
    }

    /// Give every light `DATA` a positive radius. `Radius` must be held
    /// already, so nothing is interned.
    pub(crate) fn ensure_light_radius_interned(interner: &StringInterner, record: &mut Record)
        requires
            interner.wf(),
            interner@.contains("Radius".spec_bytes()),
        ensures
            old(record)@.sig != code('L', 'I', 'G', 'H') ==> final(record)@ == old(record)@,
            old(record)@.sig == code('L', 'I', 'G', 'H') ==> final(record)@ == light_radius_ensured(*interner, old(record)@),
    {
        if !sig_is(record.sig.0, 'L', 'I', 'G', 'H') {
            return;
        }
        let ghost r0 = record@;
        let ghost orig = r0.fields;
        let mut rest: Vec<FieldEntry> = Vec::new();
        core::mem::swap(&mut record.fields, &mut rest);
        let n = rest.len();
        let mut idx: usize = 0;
        while idx < n
            invariant
                orig.len() == n,
                idx <= n,
                rest@.len() == n - idx,
                forall|j: int| 0 <= j < rest@.len() ==> rest@[j]@ == orig[idx + j],
                record.fields@.len() == idx,
                forall|j: int| 0 <= j < idx ==> #[trigger] record.fields@[j]@ == radius_entry(*interner, interner@, orig[j]),
                interner.wf(),
                interner@.contains("Radius".spec_bytes()),
                record@.sig == r0.sig,
                record@.form_key == r0.form_key,
                record@.eid == r0.eid,
            decreases n - idx,
        {
            let e = rest.remove(0);
            let m = radius_entry_exec(interner, e);
            record.fields.push(m);
            idx = idx + 1;
        }
        assert(record@.fields =~= light_radius_ensured(*interner, r0).fields);
    }

    /// Keep cage-bulb gobo lights small. `NearClip` is interned first.
    pub fn normalize_cage_bulb_gobo_light_for_fo4(interner: &mut StringInterner, record: &mut Record)
        requires
            old(interner).wf(),
            old(interner)@.len() + 1 <= u32::MAX,
        ensures
            final(interner).wf(),
            final(interner)@ == intern_all(old(interner)@, seq!["NearClip".spec_bytes()]),
            !(old(record)@.sig == code('L', 'I', 'G', 'H') && has_cage_bulb_gobo(*final(interner), old(record)@))
                ==> final(record)@ == old(record)@,
            (old(record)@.sig == code('L', 'I', 'G', 'H') && has_cage_bulb_gobo(*final(interner), old(record)@))
                ==> final(record)@ == cage_bulb_normalized(*final(interner), old(record)@),
    {
        let names: Vec<&str> = vec!["NearClip"];
        intern_each(interner, names.as_slice());
        proof {
            assert(strs_bytes(names@) =~= seq!["NearClip".spec_bytes()]);
            assert(interner@.contains(strs_bytes(names@)[0]));
        }
        Self::normalize_cage_bulb_gobo_light_for_fo4_interned(interner, record)
    }

    /// Keep cage-bulb gobo lights small. `NearClip` must be held already,
    /// so nothing is interned.
    pub(crate) fn normalize_cage_bulb_gobo_light_for_fo4_interned(interner: &StringInterner, record: &mut Record)
        requires
            interner.wf(),
            interner@.contains("NearClip".spec_bytes()),
        ensures
            !(old(record)@.sig == code('L', 'I', 'G', 'H') && has_cage_bulb_gobo(*interner, old(record)@))
                ==> final(record)@ == old(record)@,
            (old(record)@.sig == code('L', 'I', 'G', 'H') && has_cage_bulb_gobo(*interner, old(record)@))
                ==> final(record)@ == cage_bulb_normalized(*interner, old(record)@),
    {
        if !sig_is(record.sig.0, 'L', 'I', 'G', 'H') || !Self::record_has_cage_bulb_gobo(interner, record) {
            return;
        }
        let ghost r0 = record@;
        let ghost orig = r0.fields;
        let mut rest: Vec<FieldEntry> = Vec::new();
        core::mem::swap(&mut record.fields, &mut rest);
        let n = rest.len();
        let mut idx: usize = 0;
        while idx < n
            invariant
                orig.len() == n,
                idx <= n,
                rest@.len() == n - idx,
                forall|j: int| 0 <= j < rest@.len() ==> rest@[j]@ == orig[idx + j],
                record.fields@.len() == idx,
                forall|j: int| 0 <= j < idx ==> #[trigger] record.fields@[j]@ == cage_bulb_entry_data(*interner, interner@, orig[j]),
                interner.wf(),
                interner@.contains("NearClip".spec_bytes()),
                record@.sig == r0.sig,
                record@.form_key == r0.form_key,
                record@.eid == r0.eid,
            decreases n - idx,
        {
            let e = rest.remove(0);
            let m = cage_bulb_entry_exec(interner, e);
            record.fields.push(m);
            idx = idx + 1;
        }
        assert(record@.fields =~= cage_bulb_normalized(*interner, r0).fields);
    }

    /// Give a light without one a fade value of 1.0 after its `DATA`.
    pub fn ensure_light_fade_value(record: &mut Record)
        ensures
            final(record)@ == fade_ensured(old(record)@),
    {
        if !sig_is(record.sig.0, 'L', 'I', 'G', 'H') || any_sig(&record.fields, tag('F', 'N', 'A', 'M')) {
            return;
        }
        let fade = FieldEntry { sig: SubrecordSig(tag('F', 'N', 'A', 'M')), value: FieldValue::Float(0x3f80_0000) };
        let ghost before = record@.fields;
        let ghost fv = fade@;
        let n = record.fields.len();
        match find_sig(&record.fields, tag('D', 'A', 'T', 'A')) {
            Some(d) => {
                record.fields.insert(d + 1, fade);
                assert(record@.fields =~= before.insert(d + 1, fv));
            },
            None => {
                record.fields.push(fade);
                assert(record@.fields =~= before.push(fv));
            },
        }
    }
}


proof fn lemma_le32_elsewhere(s: Seq<u8>, off: int, v: u32, at: int)
    requires
        0 <= off,
        off + 4 <= s.len(),
        0 <= at,
        at + 4 <= s.len(),
        at + 4 <= off || off + 4 <= at,
    ensures
        le32(splice(s, off, u32_bytes(v)), at) == le32(s, at),
        splice(s, off, u32_bytes(v)).len() == s.len(),
{
    crate::bytes::lemma_le32_of_bytes(v);
    let t = splice(s, off, u32_bytes(v));
    assert(t[at] == s[at]);
    assert(t[at + 1] == s[at + 1]);
    assert(t[at + 2] == s[at + 2]);
    assert(t[at + 3] == s[at + 3]);
}

/// Raw light data brought to FO4's ends with a finite near clip of at least
/// 7.217 (kept when it already was), a finite flicker amplitude of at most
/// the ceiling (kept when it already was), only FO4's flag bits with
/// `non_specular` cleared, and at most 64 bytes.
pub proof fn law_light_data_in_range(b: Seq<u8>, amp: u32)
    requires
        b.len() >= 36,
        amp == gobo_flicker_max() || amp == f32_two(),
    ensures
        ({
            let out = raw_light_data(b, amp);
            &&& out.len() == if b.len() > 64 { 64 } else { b.len() }
            &&& f32_finite(le32(out, 24)) && !f32_lt(le32(out, 24), min_near_clip())
            &&& f32_finite(le32(b, 24)) && !f32_lt(le32(b, 24), min_near_clip()) ==> le32(out, 24) == le32(b, 24)
            &&& f32_finite(le32(out, 32)) && !f32_lt(amp, le32(out, 32))
            &&& f32_finite(le32(b, 32)) && !f32_lt(amp, le32(b, 32)) ==> le32(out, 32) == le32(b, 32)
            &&& le32(out, 12) & 0x8000 == 0 && le32(out, 12) < 0x40_0000
        }),
{
    let b1 = raw_flags_normalized(b);
    let fl = fo4_light_flags(le32(b, 12));
    lemma_le32_splice(b, 12, fl);
    lemma_le32_elsewhere(b, 12, fl, 24);
    lemma_le32_elsewhere(b, 12, fl, 32);
    let b2 = raw_near_clip_raised(b1, min_near_clip());
    lemma_le32_splice(b1, 24, min_near_clip());
    lemma_le32_elsewhere(b1, 24, min_near_clip(), 12);
    lemma_le32_elsewhere(b1, 24, min_near_clip(), 32);
    let b3 = raw_float_clamped(b2, 32, amp);
    lemma_le32_splice(b2, 32, amp);
    lemma_le32_elsewhere(b2, 32, amp, 12);
    lemma_le32_elsewhere(b2, 32, amp, 24);
    let b7 = raw_set(raw_set(raw_set(raw_set(b3, 44, f32_one()), 48, f32_two()), 56, 0), 60, 0);
    let b4 = raw_set(b3, 44, f32_one());
    let b5 = raw_set(b4, 48, f32_two());
    let b6 = raw_set(b5, 56, 0);
    if b3.len() >= 48 {
        lemma_le32_elsewhere(b3, 44, f32_one(), 12);
        lemma_le32_elsewhere(b3, 44, f32_one(), 24);
        lemma_le32_elsewhere(b3, 44, f32_one(), 32);
    }
    if b4.len() >= 52 {
        lemma_le32_elsewhere(b4, 48, f32_two(), 12);
        lemma_le32_elsewhere(b4, 48, f32_two(), 24);
        lemma_le32_elsewhere(b4, 48, f32_two(), 32);
    }
    if b5.len() >= 60 {
        lemma_le32_elsewhere(b5, 56, 0, 12);
        lemma_le32_elsewhere(b5, 56, 0, 24);
        lemma_le32_elsewhere(b5, 56, 0, 32);
    }
    if b6.len() >= 64 {
        lemma_le32_elsewhere(b6, 60, 0, 12);
        lemma_le32_elsewhere(b6, 60, 0, 24);
        lemma_le32_elsewhere(b6, 60, 0, 32);
    }
    let out = raw_light_data(b, amp);
    if b7.len() > 64 {
        assert(out == b7.take(64));
        assert(le32(out, 12) == le32(b7, 12));
        assert(le32(out, 24) == le32(b7, 24));
        assert(le32(out, 32) == le32(b7, 32));
    }
    let f = le32(b, 12);
    assert(fo4_light_flags(f) & 0x8000 == 0 && fo4_light_flags(f) < 0x40_0000) by (bit_vector);
    assert(f32_finite(min_near_clip()) && !f32_lt(min_near_clip(), min_near_clip()));
    assert(f32_finite(amp) && !f32_lt(amp, amp));
}


/// In a light brought to FO4's, every raw `DATA` of at least 36 bytes has a
/// finite near clip of at least 7.217 and a finite flicker amplitude of at
/// most 2.0, or 0.8 for a gobo light (each kept when it already was within
/// bounds), only FO4's flag bits, and at most 64 bytes.
pub proof fn law_light_record_in_range(interner: StringInterner, r: RecordView, j: int)
    requires
        0 <= j < r.fields.len(),
        r.fields[j].sig == code('D', 'A', 'T', 'A'),
        r.fields[j].value matches FieldView::Bytes(b) && b.len() >= 36,
    ensures
        ({
            let b = r.fields[j].value->Bytes_0;
            let amp = if has_gobo(interner, r) { gobo_flicker_max() } else { f32_two() };
            let out = light_data_normalized(interner, r).fields[j].value->Bytes_0;
            &&& light_data_normalized(interner, r).fields[j].value is Bytes
            &&& out.len() == if b.len() > 64 { 64 } else { b.len() }
            &&& f32_finite(le32(out, 24)) && !f32_lt(le32(out, 24), min_near_clip())
            &&& f32_finite(le32(b, 24)) && !f32_lt(le32(b, 24), min_near_clip()) ==> le32(out, 24) == le32(b, 24)
            &&& f32_finite(le32(out, 32)) && !f32_lt(amp, le32(out, 32))
            &&& f32_finite(le32(b, 32)) && !f32_lt(amp, le32(b, 32)) ==> le32(out, 32) == le32(b, 32)
            &&& le32(out, 12) & 0x8000 == 0 && le32(out, 12) < 0x40_0000
        }),
{
    let b = r.fields[j].value->Bytes_0;
    let amp = flicker_max(interner, r);
    assert(light_data_normalized(interner, r).fields[j] == light_data_entry(interner, interner@, r.fields[j], amp));
    law_light_data_in_range(b, amp);
}


/// Making a light's radius positive leaves raw data with a positive radius:
/// a positive one is kept with the data unchanged, and a zero one becomes a
/// fallback of at most 2048.
pub proof fn law_light_radius_positive(b: Seq<u8>)
    requires
        b.len() >= 8,
    ensures
        raw_radius_ensured(b).len() == b.len(),
        le32(raw_radius_ensured(b), 4) > 0,
        le32(b, 4) > 0 ==> raw_radius_ensured(b) == b,
        le32(b, 4) == 0 ==> le32(raw_radius_ensured(b), 4) <= 2048,
{
    if le32(b, 4) == 0 {
        let fallback = if b.len() >= 60 { le32(b, 56) } else { 1 };
        lemma_le32_splice(b, 4, clamp_radius(fallback));
    }
}


/// The light limits as `f32` bit patterns: the near clip floor is 7.217
/// (0x40E6F1AA), the flicker ceiling 2.0 (0x40000000) or 0.8 for a gobo
/// light (0x3F4CCCCD), and a cage bulb's near clip floor 32.0 (0x42000000).
pub proof fn law_light_limit_values()
    ensures
        min_near_clip() == 0x40e6_f1aau32,
        f32_two() == 0x4000_0000u32,
        gobo_flicker_max() == 0x3f4c_cccdu32,
        cage_bulb_min_near_clip() == 0x4200_0000u32,
        f32_one() == 0x3f80_0000u32,
{
}

} // verus!
