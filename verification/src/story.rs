//! Story Manager and quest-completion conditions. FO76 gates Story Manager
//! nodes on event data (`GetEventData`, `HasKeyword` on event data) and
//! counts quest completions (`GetNumTimesCompletedQuest`); FO4 has neither
//! form. These functions recognise the FO76 shapes and lower them onto FO4's
//! `GetQuestRunning` and `GetQuestCompleted`, and close a condition gate by
//! turning it into `GetIsID(Player) == 1`. Comparison values are
//! single-precision values held as their IEEE-754 bit patterns.
use vstd::prelude::*;
use crate::bytes::{le16, le32, read_u32_le, splice, u16_bytes, u32_bytes, write_u16_le, write_u32_le};
use crate::conditions::{is_condition_sig, raw_function_id, raw_operator, raw_parameter_1, raw_run_on};
use crate::effects::Fo76Fo4Hook;
use crate::floatbits::{
    f32_bits_eq, f32_bits_finite, f32_bits_integral, f32_bits_lt, f32_eq, f32_finite, f32_integral, f32_lt,
    f32_negative, f32_zero,
};
use crate::model::{code, named_view, sig_is, EntryView, FieldEntry, FieldValue, FieldView, Record, RecordView};

verus! {

/// `1.0` as an `f32` bit pattern.
pub open spec fn f32_one_bits() -> u32 {
    0x3f80_0000
}

/// `65535.0` as an `f32` bit pattern.
pub open spec fn f32_u16_max_bits() -> u32 {
    0x477f_ff00
}

/// The second parameter of a raw condition (bytes 16..20).
pub open spec fn raw_parameter_2(b: Seq<u8>) -> Option<u32> {
    if b.len() >= 20 { Some(le32(b, 16)) } else { None }
}

/// The reference of a raw condition (bytes 24..28).
pub open spec fn raw_reference(b: Seq<u8>) -> Option<u32> {
    if b.len() >= 28 { Some(le32(b, 24)) } else { None }
}

/// The third parameter of a raw condition (bytes 28..32).
pub open spec fn raw_parameter_3(b: Seq<u8>) -> Option<u32> {
    if b.len() >= 32 { Some(le32(b, 28)) } else { None }
}

/// The comparison value of a raw condition (bytes 4..8) as an `f32` bit
/// pattern, unless the row compares against a global.
pub open spec fn raw_comparison(b: Seq<u8>) -> Option<u32> {
    if b.len() >= 8 && b[0] & 4u8 == 0 { Some(le32(b, 4)) } else { None }
}

/// `b` with `v` stored little-endian at `off` when four bytes are there.
pub open spec fn put_u32(b: Seq<u8>, off: int, v: u32) -> Seq<u8> {
    if off + 4 <= b.len() { splice(b, off, u32_bytes(v)) } else { b }
}

/// `b` with `v` stored little-endian at `off` when two bytes are there.
pub open spec fn put_u16(b: Seq<u8>, off: int, v: u16) -> Seq<u8> {
    if off + 2 <= b.len() { splice(b, off, u16_bytes(v)) } else { b }
}

/// The comparison value of a raw condition, unless it names a global.
pub fn comparison_unless_global(bytes: &[u8]) -> (r: Option<u32>)
    ensures
        r == raw_comparison(bytes@),
{
    if bytes.len() < 8 || bytes[0] & 4 != 0 {
        return None;
    }
    Some(read_u32_le(bytes, 4))
}

fn put_u32_exec(bytes: &mut Vec<u8>, off: usize, v: u32)
    requires
        off <= 28,
    ensures
        final(bytes)@ == put_u32(old(bytes)@, off as int, v),
{
    if off + 4 <= bytes.len() {
        write_u32_le(bytes, off, v);
    }
}

impl Fo76Fo4Hook {
    /// The second parameter of a raw condition.
    pub fn raw_condition_parameter_2(bytes: &[u8]) -> (r: Option<u32>)
        ensures
            r == raw_parameter_2(bytes@),
    {
        if bytes.len() < 20 {
            return None;
        }
        Some(read_u32_le(bytes, 16))
    }

    /// The reference of a raw condition.
    pub fn raw_condition_reference(bytes: &[u8]) -> (r: Option<u32>)
        ensures
            r == raw_reference(bytes@),
    {
        if bytes.len() < 28 {
            return None;
        }
        Some(read_u32_le(bytes, 24))
    }

    /// The third parameter of a raw condition.
    pub fn raw_condition_parameter_3(bytes: &[u8]) -> (r: Option<u32>)
        ensures
            r == raw_parameter_3(bytes@),
    {
        if bytes.len() < 32 {
            return None;
        }
        Some(read_u32_le(bytes, 28))
    }

    /// Store the first parameter of a raw condition long enough to hold it.
    pub fn set_raw_condition_parameter_1(bytes: &mut Vec<u8>, parameter_1: u32)
        ensures
            final(bytes)@ == put_u32(old(bytes)@, 12, parameter_1),
    {
        put_u32_exec(bytes, 12, parameter_1);
    }

    /// Store the second parameter of a raw condition long enough to hold it.
    pub fn set_raw_condition_parameter_2(bytes: &mut Vec<u8>, parameter_2: u32)
        ensures
            final(bytes)@ == put_u32(old(bytes)@, 16, parameter_2),
    {
        put_u32_exec(bytes, 16, parameter_2);
    }

    /// Store the run-on target of a raw condition long enough to hold it.
    pub fn set_raw_condition_run_on(bytes: &mut Vec<u8>, run_on: u32)
        ensures
            final(bytes)@ == put_u32(old(bytes)@, 20, run_on),
    {
        put_u32_exec(bytes, 20, run_on);
    }

    /// Store the reference of a raw condition long enough to hold it.
    pub fn set_raw_condition_reference(bytes: &mut Vec<u8>, reference: u32)
        ensures
            final(bytes)@ == put_u32(old(bytes)@, 24, reference),
    {
        put_u32_exec(bytes, 24, reference);
    }

    /// Store the third parameter of a raw condition long enough to hold it.
    pub fn set_raw_condition_parameter_3(bytes: &mut Vec<u8>, parameter_3: u32)
        ensures
            final(bytes)@ == put_u32(old(bytes)@, 28, parameter_3),
    {
        put_u32_exec(bytes, 28, parameter_3);
    }
}

/// The keyword a FO76 Story Manager start gate tests: `GetEventData`
/// selecting Keyword 1, compared equal to 1.0, on a plain 32-byte row.
pub open spec fn sm_start_keyword(v: FieldView) -> Option<u32> {
    match v {
        FieldView::Bytes(b) => if b.len() >= 32 && b[0] == 0 && raw_function_id(b) == Some(576u16)
            && raw_parameter_1(b) == Some(0x314B_0000u32) && raw_parameter_2(b) != Some(0u32)
            && raw_run_on(b) == Some(0u32) && raw_reference(b) == Some(0u32) && raw_parameter_3(b)
            == Some(u32::MAX) && f32_eq(le32(b, 4), f32_one_bits()) {
            raw_parameter_2(b)
        } else {
            None
        },
        _ => None,
    }
}

/// The keyword a FO76 Story Manager activity gate tests: `HasKeyword` run on
/// event data (the player reference), compared equal to 0.0.
pub open spec fn sm_active_keyword(v: FieldView) -> Option<u32> {
    match v {
        FieldView::Bytes(b) => if b.len() >= 32 && b[0] == 0 && raw_function_id(b) == Some(560u16)
            && raw_parameter_1(b) != Some(0u32) && raw_parameter_2(b) == Some(0u32) && raw_run_on(b)
            == Some(7u32) && raw_reference(b) == Some(0u32) && raw_parameter_3(b) == Some(0x3352u32)
            && f32_eq(le32(b, 4), 0) {
            raw_parameter_1(b)
        } else {
            None
        },
        _ => None,
    }
}

/// The quest a FO76 Story Manager completion gate tests:
/// `GetNumTimesCompletedQuest` run on event data, `== 0` or `<= 0`.
pub open spec fn sm_completion_quest(v: FieldView) -> Option<u32> {
    match v {
        FieldView::Bytes(b) => if b.len() >= 32 && (b[0] == 0 || b[0] == 0xA0) && raw_function_id(b)
            == Some(857u16) && raw_parameter_1(b) != Some(0u32) && raw_parameter_2(b) == Some(0u32)
            && raw_run_on(b) == Some(7u32) && raw_reference(b) == Some(0u32) && raw_parameter_3(b)
            == Some(0x3352u32) && f32_eq(le32(b, 4), 0) {
            raw_parameter_1(b)
        } else {
            None
        },
        _ => None,
    }
}

fn raw_fields(bytes: &[u8]) -> (r: (u16, u32, u32, u32, u32, u32, u32))
    requires
        bytes@.len() >= 32,
    ensures
        raw_function_id(bytes@) == Some(r.0),
        raw_parameter_1(bytes@) == Some(r.1),
        raw_parameter_2(bytes@) == Some(r.2),
        raw_run_on(bytes@) == Some(r.3),
        raw_reference(bytes@) == Some(r.4),
        raw_parameter_3(bytes@) == Some(r.5),
        r.6 == le32(bytes@, 4),
{
    (
        crate::bytes::read_u16_le(bytes, 8),
        read_u32_le(bytes, 12),
        read_u32_le(bytes, 16),
        read_u32_le(bytes, 20),
        read_u32_le(bytes, 24),
        read_u32_le(bytes, 28),
        read_u32_le(bytes, 4),
    )
}

impl Fo76Fo4Hook {
    /// The keyword a FO76 Story Manager start gate tests.
    pub fn story_manager_start_keyword(value: &FieldValue) -> (r: Option<u32>)
        ensures
            r == sm_start_keyword(value@),
    {
        match value {
            FieldValue::Bytes(bytes) => {
                if bytes.len() < 32 || bytes[0] != 0 {
                    return None;
                }
                let (f, p1, p2, run_on, reference, p3, c) = raw_fields(bytes.as_slice());
                if f == 576 && p1 == 0x314B_0000 && p2 != 0 && run_on == 0 && reference == 0 && p3
                    == 0xffff_ffff && f32_bits_eq(c, 0x3f80_0000) {
                    Some(p2)
                } else {
                    None
                }
            },
            _ => None,
        }
    }

    /// The keyword a FO76 Story Manager activity gate tests.
    pub fn story_manager_active_keyword(value: &FieldValue) -> (r: Option<u32>)
        ensures
            r == sm_active_keyword(value@),
    {
        match value {
            FieldValue::Bytes(bytes) => {
                if bytes.len() < 32 || bytes[0] != 0 {
                    return None;
                }
                let (f, p1, p2, run_on, reference, p3, c) = raw_fields(bytes.as_slice());
                if f == 560 && p1 != 0 && p2 == 0 && run_on == 7 && reference == 0 && p3 == 0x3352
                    && f32_bits_eq(c, 0) {
                    Some(p1)
                } else {
                    None
                }
            },
            _ => None,
        }
    }

    /// The quest a FO76 Story Manager completion gate tests.
    pub fn story_manager_completion_quest(value: &FieldValue) -> (r: Option<u32>)
        ensures
            r == sm_completion_quest(value@),
    {
        match value {
            FieldValue::Bytes(bytes) => {
                if bytes.len() < 32 || (bytes[0] != 0 && bytes[0] != 0xA0) {
                    return None;
                }
                let (f, p1, p2, run_on, reference, p3, c) = raw_fields(bytes.as_slice());
                if f == 857 && p1 != 0 && p2 == 0 && run_on == 7 && reference == 0 && p3 == 0x3352
                    && f32_bits_eq(c, 0) {
                    Some(p1)
                } else {
                    None
                }
            },
            _ => None,
        }
    }
}

/// A quest condition made global: no second parameter, run on the subject,
/// no reference, and the third parameter `u32::MAX`.
pub open spec fn sm_normalized(b: Seq<u8>) -> Seq<u8> {
    put_u32(put_u32(put_u32(put_u32(b, 16, 0), 20, 0), 24, 0), 28, u32::MAX)
}

/// An activity gate lowered onto FO4 `GetQuestRunning(quest)`.
pub open spec fn active_lowered(b: Seq<u8>, quest: u32) -> Seq<u8> {
    sm_normalized(put_u32(put_u16(b, 8, 56), 12, quest))
}

/// A completion gate lowered onto FO4 `GetQuestCompleted`.
pub open spec fn completion_lowered(b: Seq<u8>) -> Seq<u8> {
    sm_normalized(put_u16(b, 8, 543))
}

fn put_u16_exec(bytes: &mut Vec<u8>, off: usize, v: u16)
    requires
        off <= 30,
    ensures
        final(bytes)@ == put_u16(old(bytes)@, off as int, v),
{
    if off + 2 <= bytes.len() {
        write_u16_le(bytes, off, v);
    }
}

impl Fo76Fo4Hook {
    /// Make a quest condition global: clear the second parameter, run it on
    /// the subject with no reference, and set the third parameter to
    /// `u32::MAX`.
    pub fn normalize_story_manager_quest_condition(bytes: &mut Vec<u8>)
        ensures
            final(bytes)@ == sm_normalized(old(bytes)@),
    {
        Self::set_raw_condition_parameter_2(bytes, 0);
        Self::set_raw_condition_run_on(bytes, 0);
        Self::set_raw_condition_reference(bytes, 0);
        Self::set_raw_condition_parameter_3(bytes, 0xffff_ffff);
    }

    /// Lower a FO76 activity gate onto FO4 `GetQuestRunning(quest)`; say
    /// whether the value was one.
    pub fn lower_story_manager_active_keyword_condition(value: &mut FieldValue, quest: u32) -> (lowered: bool)
        ensures
            lowered == (sm_active_keyword(old(value)@) is Some),
            lowered ==> final(value)@ == FieldView::Bytes(active_lowered(old(value)@->Bytes_0, quest)),
            !lowered ==> final(value)@ == old(value)@,
    {
        if Self::story_manager_active_keyword(value).is_none() {
            return false;
        }
        match value {
            FieldValue::Bytes(bytes) => {
                put_u16_exec(bytes, 8, 56);
                Self::set_raw_condition_parameter_1(bytes, quest);
                Self::normalize_story_manager_quest_condition(bytes);
                true
            },
            _ => false,
        }
    }

    /// Lower a FO76 completion gate onto FO4 `GetQuestCompleted`; say
    /// whether the value was one.
    pub fn lower_story_manager_completion_condition(value: &mut FieldValue) -> (lowered: bool)
        ensures
            lowered == (sm_completion_quest(old(value)@) is Some),
            lowered ==> final(value)@ == FieldView::Bytes(completion_lowered(old(value)@->Bytes_0)),
            !lowered ==> final(value)@ == old(value)@,
    {
        if Self::story_manager_completion_quest(value).is_none() {
            return false;
        }
        match value {
            FieldValue::Bytes(bytes) => {
                put_u16_exec(bytes, 8, 543);
                Self::normalize_story_manager_quest_condition(bytes);
                true
            },
            _ => false,
        }
    }
}

} // verus!

verus! {

/// IEEE-754 `value <op> comparison` for the condition operators `==`, `!=`,
/// `>`, `>=`, `<`, `<=` (0 to 5); other operators never match.
pub open spec fn numeric_matches(v: u32, op: u8, c: u32) -> bool {
    if op == 0 {
        f32_eq(v, c)
    } else if op == 1 {
        !f32_eq(v, c)
    } else if op == 2 {
        f32_lt(c, v)
    } else if op == 3 {
        f32_lt(c, v) || f32_eq(v, c)
    } else if op == 4 {
        f32_lt(v, c)
    } else if op == 5 {
        f32_lt(v, c) || f32_eq(v, c)
    } else {
        false
    }
}

impl Fo76Fo4Hook {
    /// IEEE-754 `value <operator> comparison` for a condition operator.
    pub fn numeric_condition_matches(value: u32, operator: u8, comparison: u32) -> (r: bool)
        ensures
            r == numeric_matches(value, operator, comparison),
    {
        if operator == 0 {
            f32_bits_eq(value, comparison)
        } else if operator == 1 {
            !f32_bits_eq(value, comparison)
        } else if operator == 2 {
            f32_bits_lt(comparison, value)
        } else if operator == 3 {
            f32_bits_lt(comparison, value) || f32_bits_eq(value, comparison)
        } else if operator == 4 {
            f32_bits_lt(value, comparison)
        } else if operator == 5 {
            f32_bits_lt(value, comparison) || f32_bits_eq(value, comparison)
        } else {
            false
        }
    }
}

/// The completion counts a FO76 count predicate is probed at: 1, 2, 3, 5,
/// 10 and 10^9, as `f32` bit patterns.
pub open spec fn completion_probes() -> Seq<u32> {
    seq![0x3f80_0000u32, 0x4000_0000u32, 0x4040_0000u32, 0x40a0_0000u32, 0x4120_0000u32, 0x4e6e_6b28u32]
}

/// 1 when the predicate holds at `v`, else 0.
pub open spec fn hit(v: u32, op: u8, c: u32) -> nat {
    if numeric_matches(v, op, c) { 1 } else { 0 }
}

/// How many of the probe counts the predicate `count <op> c` holds at.
pub open spec fn probes_matched(op: u8, c: u32) -> nat {
    hit(completion_probes()[0], op, c) + hit(completion_probes()[1], op, c) + hit(completion_probes()[2], op, c)
        + hit(completion_probes()[3], op, c) + hit(completion_probes()[4], op, c) + hit(completion_probes()[5], op, c)
}

/// The FO4 `GetQuestCompleted` comparison value (an `f32` bit pattern) that
/// carries the FO76 predicate `count <op> c`, and whether the carry is
/// exact: `0.0` when the predicate holds at 0 and at no probe, `1.0` when it
/// fails at 0 and holds at some probe (exact when at every probe); nothing
/// otherwise, and nothing for an unknown operator or a comparison that is
/// not finite.
pub open spec fn completed_comparison(op: u8, c: u32) -> Option<(u32, bool)> {
    if op > 5 || !f32_finite(c) {
        None
    } else {
        let zero = numeric_matches(0, op, c);
        let n = probes_matched(op, c);
        if zero && n == 0 {
            Some((0u32, true))
        } else if !zero && n > 0 {
            Some((f32_one_bits(), n == 6))
        } else {
            None
        }
    }
}

impl Fo76Fo4Hook {
    /// The FO4 `GetQuestCompleted` comparison value carrying a FO76
    /// completion-count predicate, and whether the carry is exact.
    pub fn quest_completed_comparison_for_count_predicate(operator: u8, comparison: u32) -> (r: Option<(u32, bool)>)
        ensures
            r == completed_comparison(operator, comparison),
    {
        if operator > 5 || !f32_bits_finite(comparison) {
            return None;
        }
        let holds_at_zero = Self::numeric_condition_matches(0, operator, comparison);
        let mut n: u32 = 0;
        if Self::numeric_condition_matches(0x3f80_0000, operator, comparison) {
            n = n + 1;
        }
        if Self::numeric_condition_matches(0x4000_0000, operator, comparison) {
            n = n + 1;
        }
        if Self::numeric_condition_matches(0x4040_0000, operator, comparison) {
            n = n + 1;
        }
        if Self::numeric_condition_matches(0x40a0_0000, operator, comparison) {
            n = n + 1;
        }
        if Self::numeric_condition_matches(0x4120_0000, operator, comparison) {
            n = n + 1;
        }
        if Self::numeric_condition_matches(0x4e6e_6b28, operator, comparison) {
            n = n + 1;
        }
        assert(n == probes_matched(operator, comparison));
        if holds_at_zero && n == 0 {
            Some((0, true))
        } else if !holds_at_zero && n > 0 {
            Some((0x3f80_0000, n == 6))
        } else {
            None
        }
    }
}

/// What lowering a FO76 `GetNumTimesCompletedQuest` row yields: the FO4
/// comparison value and whether it is exact. Nothing for a Story Manager
/// completion gate compared `<=` (that phase owns it), for a row that is
/// short, tests another function or no quest, compares against a global, or
/// whose predicate has no sound FO4 boolean.
pub open spec fn completion_lowering(b: Seq<u8>) -> Option<(u32, bool)> {
    if sm_completion_quest(FieldView::Bytes(b)) is Some && raw_operator(b) == Some(5u8) {
        None
    } else if b.len() < 32 || raw_function_id(b) != Some(857u16) || raw_parameter_1(b) == Some(0u32) {
        None
    } else {
        match raw_comparison(b) {
            Some(c) => completed_comparison((b[0] / 32) as u8, c),
            None => None,
        }
    }
}

/// A completion-count row lowered onto FO4 `GetQuestCompleted == target`:
/// the function replaced, the operator set to `==` (flags kept), the
/// comparison value `target`, and the condition made global.
pub open spec fn count_lowered(b: Seq<u8>, target: u32) -> Seq<u8> {
    let b1 = put_u16(b, 8, 543);
    let b2 = b1.update(0, b1[0] & 0x1fu8);
    sm_normalized(splice(b2, 4, u32_bytes(target)))
}

impl Fo76Fo4Hook {
    /// Lower a plain FO76 `GetNumTimesCompletedQuest` row onto FO4
    /// `GetQuestCompleted`; `Some(exact)` when it was lowered, `None` when
    /// the row is left for the incompatible-condition pass to drop.
    pub fn lower_quest_completion_count_condition(value: &mut FieldValue) -> (r: Option<bool>)
        ensures
            match old(value)@ {
                FieldView::Bytes(b) => match completion_lowering(b) {
                    Some(p) => r == Some(p.1) && final(value)@ == FieldView::Bytes(count_lowered(b, p.0)),
                    None => r is None && final(value)@ == old(value)@,
                },
                _ => r is None && final(value)@ == old(value)@,
            },
    {
        if Self::story_manager_completion_quest(value).is_some() {
            let five = match value {
                FieldValue::Bytes(bytes) => Self::raw_condition_operator(bytes.as_slice()) == Some(5u8),
                _ => false,
            };
            if five {
                return None;
            }
        }
        match value {
            FieldValue::Bytes(bytes) => {
                if bytes.len() < 32 {
                    return None;
                }
                if Self::raw_condition_function_id(bytes.as_slice()) != Some(857u16) {
                    return None;
                }
                if Self::raw_condition_parameter_1(bytes.as_slice()) == Some(0u32) {
                    return None;
                }
                let operator = bytes[0] / 32;
                let comparison = match comparison_unless_global(bytes.as_slice()) {
                    Some(c) => c,
                    None => return None,
                };
                let (target, exact) = match Self::quest_completed_comparison_for_count_predicate(operator, comparison) {
                    Some(p) => p,
                    None => return None,
                };
                let ghost b = bytes@;
                put_u16_exec(bytes, 8, 543);
                let b0 = bytes[0] & 0x1f;
                bytes.set(0, b0);
                write_u32_le(bytes, 4, target);
                Self::normalize_story_manager_quest_condition(bytes);
                Some(exact)
            },
            _ => None,
        }
    }
}

/// A condition entry with a lowerable completion-count row lowered.
pub open spec fn completion_entry(e: EntryView) -> EntryView {
    if is_condition_sig(e.sig) {
        match e.value {
            FieldView::Bytes(b) => match completion_lowering(b) {
                Some(p) => EntryView { value: FieldView::Bytes(count_lowered(b, p.0)), ..e },
                None => e,
            },
            _ => e,
        }
    } else {
        e
    }
}

/// A record with every lowerable completion-count condition lowered.
pub open spec fn completion_conditions_lowered(r: RecordView) -> RecordView {
    RecordView { fields: r.fields.map_values(|e: EntryView| completion_entry(e)), ..r }
}

fn completion_entry_exec(e: FieldEntry) -> (r: FieldEntry)
    ensures
        r@ == completion_entry(e@),
{
    let FieldEntry { sig, value } = e;
    if !sig_is(sig.0, 'C', 'T', 'D', 'A') && !sig_is(sig.0, 'C', 'T', 'D', 'T') {
        return FieldEntry { sig: sig, value: value };
    }
    let mut value = value;
    let _ = Fo76Fo4Hook::lower_quest_completion_count_condition(&mut value);
    FieldEntry { sig: sig, value: value }
}

impl Fo76Fo4Hook {
    /// Lower every lowerable FO76 completion-count condition of a record
    /// onto FO4 `GetQuestCompleted`.
    pub fn normalize_fo76_quest_completion_conditions(record: &mut Record)
        ensures
            final(record)@ == completion_conditions_lowered(old(record)@),
    {
        let ghost r0 = record@;
        let ghost orig = r0.fields;
        let mut rest: Vec<FieldEntry> = Vec::new();
        core::mem::swap(&mut record.fields, &mut rest);
        let n = rest.len();
        let mut idx: usize = 0;
        while idx < n
            invariant
                orig.len() == n,
                idx <= n,
                rest@.len() == n - idx,
                forall|j: int| 0 <= j < rest@.len() ==> rest@[j]@ == orig[idx + j],
                record.fields@.len() == idx,
                forall|j: int| 0 <= j < idx ==> #[trigger] record.fields@[j]@ == completion_entry(orig[j]),
                record@.sig == r0.sig,
                record@.form_key == r0.form_key,
                record@.eid == r0.eid,
            decreases n - idx,
        {
            let e = rest.remove(0);
            let m = completion_entry_exec(e);
            record.fields.push(m);
            idx = idx + 1;
        }
        assert(record@.fields =~= completion_conditions_lowered(r0).fields);
    }
}

} // verus!

verus! {

/// The first 24 bytes of a closed gate: the Or flag of `b0` kept and every
/// other flag and the operator cleared (`==`), comparison 1.0, function
/// `GetIsID` (72) with parameter the player (7), no second parameter, run on
/// the subject.
pub open spec fn gate_head(b0: u8) -> Seq<u8> {
    seq![b0 & 1u8, 0u8, 0u8, 0u8] + u32_bytes(f32_one_bits()) + u16_bytes(72) + seq![0u8, 0u8] + u32_bytes(7)
        + u32_bytes(0) + u32_bytes(0)
}

/// A condition row rewritten into FO4 `GetIsID(Player) == 1`, which no
/// actor but the player meets: the head replaced, and the reference and
/// third parameter cleared where the row holds them.
pub open spec fn closed_gate(b: Seq<u8>) -> Seq<u8> {
    put_u32(put_u32(gate_head(b[0]) + b.subrange(24, b.len() as int), 24, 0), 28, 0)
}

/// Rewrite a condition row into FO4 `GetIsID(Player) == 1`; a row too short
/// to hold a whole FO4 condition (24 bytes) is left as it is and `false`
/// returned.
pub fn close_condition_gate(bytes: &mut Vec<u8>) -> (closed: bool)
    ensures
        closed == (old(bytes)@.len() >= 24),
        closed ==> final(bytes)@ == closed_gate(old(bytes)@),
        !closed ==> final(bytes)@ == old(bytes)@,
        closed ==> raw_function_id(final(bytes)@) == Some(72u16) && raw_parameter_1(final(bytes)@) == Some(7u32)
            && raw_operator(final(bytes)@) == Some(0u8) && raw_comparison(final(bytes)@) == Some(f32_one_bits())
            && raw_run_on(final(bytes)@) == Some(0u32) && final(bytes)@[0] & 1u8 == old(bytes)@[0] & 1u8,
{
    if bytes.len() < 24 {
        return false;
    }
    let ghost b = bytes@;
    let b0 = bytes[0] & 1;
    bytes.set(0, b0);
    bytes.set(1, 0);
    bytes.set(2, 0);
    bytes.set(3, 0);
    write_u32_le(bytes, 4, 0x3f80_0000);
    write_u16_le(bytes, 8, 72);
    bytes.set(10, 0);
    bytes.set(11, 0);
    write_u32_le(bytes, 12, 7);
    write_u32_le(bytes, 16, 0);
    write_u32_le(bytes, 20, 0);
    assert(bytes@ =~= gate_head(b[0]) + b.subrange(24, b.len() as int));
    let ghost mid = bytes@;
    put_u32_exec(bytes, 24, 0);
    put_u32_exec(bytes, 28, 0);
    proof {
        let h = gate_head(b[0]);
        let x: u8 = b[0];
        assert(b0 & 4u8 == 0u8 && b0 / 32 == 0u8 && b0 & 1u8 == x & 1u8) by (bit_vector)
            requires
                b0 == x & 1u8,
        ;
        crate::bytes::lemma_le32_of_bytes(f32_one_bits());
        crate::bytes::lemma_le32_of_bytes(7);
        crate::bytes::lemma_le32_of_bytes(0);
        crate::bytes::lemma_le16_of_bytes(72);
        let f = bytes@;
        assert(f.subrange(0, 24) =~= h);
        assert(le32(f, 4) == le32(u32_bytes(f32_one_bits()), 0));
        assert(le16(f, 8) == le16(u16_bytes(72), 0));
        assert(le32(f, 12) == le32(u32_bytes(7), 0));
        assert(le32(f, 20) == le32(u32_bytes(0), 0));
    }
    true
}

impl Fo76Fo4Hook {
    /// Close a raw condition gate (see `close_condition_gate`); other
    /// values are left as they are and `false` returned.
    pub fn close_condition_gate(value: &mut FieldValue) -> (closed: bool)
        ensures
            closed == (old(value)@ matches FieldView::Bytes(b) && b.len() >= 24),
            closed ==> final(value)@ == FieldView::Bytes(closed_gate(old(value)@->Bytes_0)),
            !closed ==> final(value)@ == old(value)@,
    {
        match value {
            FieldValue::Bytes(bytes) => close_condition_gate(bytes),
            _ => false,
        }
    }
}

/// Whether a value is a FO76 quest-context `GetStage` row as the source
/// writes it: exactly 32 bytes, `GetStage` (58) with no parameters, run on
/// the subject with no reference, third parameter `u32::MAX`, a known
/// operator, and a comparison value that is a whole number in 0..=65535.
pub open spec fn context_get_stage(v: FieldView) -> bool {
    &&& v matches FieldView::Bytes(b)
    &&& b.len() == 32
    &&& raw_function_id(b) == Some(58u16)
    &&& raw_parameter_1(b) == Some(0u32)
    &&& raw_parameter_2(b) == Some(0u32)
    &&& raw_run_on(b) == Some(0u32)
    &&& raw_reference(b) == Some(0u32)
    &&& raw_parameter_3(b) == Some(u32::MAX)
    &&& b[0] / 32 <= 5
    &&& raw_comparison(b) matches Some(c)
    &&& f32_finite(c)
    &&& (f32_lt(0, c) || f32_eq(c, 0))
    &&& (f32_lt(c, f32_u16_max_bits()) || f32_eq(c, f32_u16_max_bits()))
    &&& f32_integral(c)
}

impl Fo76Fo4Hook {
    /// Whether a value is a FO76 quest-context `GetStage` row as the source
    /// writes it.
    pub fn is_source_shaped_context_get_stage(value: &FieldValue) -> (r: bool)
        ensures
            r == context_get_stage(value@),
    {
        match value {
            FieldValue::Bytes(bytes) => {
                if bytes.len() != 32 {
                    return false;
                }
                let (f, p1, p2, run_on, reference, p3, _c) = raw_fields(bytes.as_slice());
                if !(f == 58 && p1 == 0 && p2 == 0 && run_on == 0 && reference == 0 && p3 == 0xffff_ffff
                    && bytes[0] / 32 <= 5) {
                    return false;
                }
                match comparison_unless_global(bytes.as_slice()) {
                    Some(c) => f32_bits_finite(c) && (f32_bits_lt(0, c) || f32_bits_eq(c, 0)) && (
                    f32_bits_lt(c, 0x477f_ff00) || f32_bits_eq(c, 0x477f_ff00)) && f32_bits_integral(c),
                    None => false,
                }
            },
            _ => false,
        }
    }
}

/// The FO76 Story Manager event-data members for the player the event is
/// about.
pub open spec fn player_event_member(m: u32) -> bool {
    m == 0x3150 || m == 0x3352
}

/// A Story Manager condition row that runs on a FO76 player event-data
/// member, moved onto the subject with no reference and third parameter
/// `u32::MAX`.
pub open spec fn event_data_run_on_entry(e: EntryView) -> EntryView {
    if is_condition_sig(e.sig) {
        match e.value {
            FieldView::Bytes(b) => if raw_run_on(b) == Some(7u32) && (raw_parameter_3(b) matches Some(m)
                && player_event_member(m)) {
                EntryView { value: FieldView::Bytes(put_u32(put_u32(put_u32(b, 20, 0), 24, 0), 28, u32::MAX)), ..e }
            } else {
                e
            },
            _ => e,
        }
    } else {
        e
    }
}

/// Story Manager nodes (`SMQN`, `SMBN`, `SMEN`) with their player
/// event-data rows moved onto the subject; other records as they are.
pub open spec fn event_data_run_on_normalized(r: RecordView) -> RecordView {
    if r.sig == code('S', 'M', 'Q', 'N') || r.sig == code('S', 'M', 'B', 'N') || r.sig == code('S', 'M', 'E', 'N') {
        RecordView { fields: r.fields.map_values(|e: EntryView| event_data_run_on_entry(e)), ..r }
    } else {
        r
    }
}

fn event_data_run_on_entry_exec(e: FieldEntry) -> (r: FieldEntry)
    ensures
        r@ == event_data_run_on_entry(e@),
{
    let FieldEntry { sig, value } = e;
    if !sig_is(sig.0, 'C', 'T', 'D', 'A') && !sig_is(sig.0, 'C', 'T', 'D', 'T') {
        return FieldEntry { sig: sig, value: value };
    }
    let value = match value {
        FieldValue::Bytes(bytes) => {
            let mut bytes = bytes;
            let run_on = Fo76Fo4Hook::raw_condition_run_on(bytes.as_slice());
            let member = Fo76Fo4Hook::raw_condition_parameter_3(bytes.as_slice());
            if run_on == Some(7u32) && (member == Some(0x3150u32) || member == Some(0x3352u32)) {
                Fo76Fo4Hook::set_raw_condition_run_on(&mut bytes, 0);
                Fo76Fo4Hook::set_raw_condition_reference(&mut bytes, 0);
                Fo76Fo4Hook::set_raw_condition_parameter_3(&mut bytes, 0xffff_ffff);
            }
            FieldValue::Bytes(bytes)
        },
        other => other,
    };
    FieldEntry { sig: sig, value: value }
}

impl Fo76Fo4Hook {
    /// Move the player event-data rows of a Story Manager node onto the
    /// subject.
    pub fn normalize_fo76_story_manager_event_data_run_on(record: &mut Record)
        ensures
            final(record)@ == event_data_run_on_normalized(old(record)@),
    {
        if !sig_is(record.sig.0, 'S', 'M', 'Q', 'N') && !sig_is(record.sig.0, 'S', 'M', 'B', 'N') && !sig_is(
            record.sig.0,
            'S',
            'M',
            'E',
            'N',
        ) {
            return;
        }
        let ghost r0 = record@;
        let ghost orig = r0.fields;
        let mut rest: Vec<FieldEntry> = Vec::new();
        core::mem::swap(&mut record.fields, &mut rest);
        let n = rest.len();
        let mut idx: usize = 0;
        while idx < n
            invariant
                orig.len() == n,
                idx <= n,
                rest@.len() == n - idx,
                forall|j: int| 0 <= j < rest@.len() ==> rest@[j]@ == orig[idx + j],
                record.fields@.len() == idx,
                forall|j: int| 0 <= j < idx ==> #[trigger] record.fields@[j]@ == event_data_run_on_entry(orig[j]),
                record@.sig == r0.sig,
                record@.form_key == r0.form_key,
                record@.eid == r0.eid,
            decreases n - idx,
        {
            let e = rest.remove(0);
            let m = event_data_run_on_entry_exec(e);
            record.fields.push(m);
            idx = idx + 1;
        }
        assert(record@.fields =~= event_data_run_on_normalized(r0).fields);
    }
}

} // verus!

verus! {

/// The object id (low 24 bits) a value names: a form key, an integer that
/// fits in `u32`, four leading bytes, or the first item or member that names
/// one.
pub open spec fn nested_id(v: FieldView) -> Option<u32>
    decreases v,
{
    match v {
        FieldView::FormKey(k) => Some(k.local & 0x00ff_ffffu32),
        FieldView::Uint(n) => if n <= u32::MAX { Some((n as u32) & 0x00ff_ffffu32) } else { None },
        FieldView::Int(n) => if 0 <= n <= u32::MAX { Some((n as u32) & 0x00ff_ffffu32) } else { None },
        FieldView::Bytes(b) => if b.len() >= 4 { Some(le32(b, 0) & 0x00ff_ffffu32) } else { None },
        FieldView::List(items) => nested_id_items(items),
        FieldView::Struct(members) => nested_id_members(members),
        _ => None,
    }
}

/// The object id the first item naming one names.
pub open spec fn nested_id_items(s: Seq<FieldView>) -> Option<u32>
    decreases s,
{
    if s.len() == 0 {
        None
    } else {
        match nested_id(s[0]) {
            Some(x) => Some(x),
            None => nested_id_items(s.subrange(1, s.len() as int)),
        }
    }
}

/// The object id the first member naming one names.
pub open spec fn nested_id_members(s: Seq<(crate::model::Sym, FieldView)>) -> Option<u32>
    decreases s,
{
    if s.len() == 0 {
        None
    } else {
        match nested_id(s[0].1) {
            Some(x) => Some(x),
            None => nested_id_members(s.subrange(1, s.len() as int)),
        }
    }
}

impl Fo76Fo4Hook {
    /// The object id a value names, looking into lists and structs.
    pub fn nested_form_id(value: &FieldValue) -> (r: Option<u32>)
        ensures
            r == nested_id(value@),
        decreases value,
    {
        match value {
            FieldValue::FormKey(k) => Some(k.local & 0x00ff_ffff),
            FieldValue::Uint(n) => if *n <= 0xffff_ffff { Some((*n as u32) & 0x00ff_ffff) } else { None },
            FieldValue::Int(n) => if 0 <= *n && *n <= 0xffff_ffff { Some((*n as u32) & 0x00ff_ffff) } else { None },
            FieldValue::Bytes(bytes) => if bytes.len() >= 4 {
                Some(read_u32_le(bytes.as_slice(), 0) & 0x00ff_ffff)
            } else {
                None
            },
            FieldValue::List(items) => {
                proof {
                    crate::model::lemma_list_view(*value);
                }
                let ghost vs = crate::model::values_view(items@);
                assert(vs.subrange(0, vs.len() as int) =~= vs);
                let mut i: usize = 0;
                #[verifier::loop_isolation(false)]
                while i < items.len()
                    invariant
                        i <= items.len(),
                        *value is List,
                        value->List_0 == *items,
                        value@ == FieldView::List(vs),
                        vs == crate::model::values_view(items@),
                        nested_id_items(vs) == nested_id_items(vs.subrange(i as int, vs.len() as int)),
                    decreases items.len() - i,
                {
                    proof {
                        let ghost all = value->List_0;
                        assert(decreases_to!(all => all@));
                        assert(decreases_to!(all@ => all@[i as int]));
                    }
                    let found = Self::nested_form_id(&items[i]);
                    let ghost t = vs.subrange(i as int, vs.len() as int);
                    assert(t[0] == vs[i as int]);
                    if found.is_some() {
                        return found;
                    }
                    assert(t.subrange(1, t.len() as int) =~= vs.subrange(i + 1, vs.len() as int));
                    i = i + 1;
                }
                assert(vs.subrange(i as int, vs.len() as int) =~= Seq::<FieldView>::empty());
                None
            },
            FieldValue::Struct(fields) => {
                proof {
                    crate::model::lemma_struct_view(*value);
                }
                let ghost ms = named_view(fields@);
                assert(ms.subrange(0, ms.len() as int) =~= ms);
                let mut i: usize = 0;
                #[verifier::loop_isolation(false)]
                while i < fields.len()
                    invariant
                        i <= fields.len(),
                        *value is Struct,
                        value->Struct_0 == *fields,
                        value@ == FieldView::Struct(ms),
                        ms == named_view(fields@),
                        nested_id_members(ms) == nested_id_members(ms.subrange(i as int, ms.len() as int)),
                    decreases fields.len() - i,
                {
                    proof {
                        let ghost all = value->Struct_0;
                        assert(decreases_to!(all => all@));
                        assert(decreases_to!(all@ => all@[i as int]));
                        assert(decreases_to!(all@[i as int] => all@[i as int].1));
                    }
                    let found = Self::nested_form_id(&fields[i].1);
                    let ghost t = ms.subrange(i as int, ms.len() as int);
                    assert(t[0] == ms[i as int]);
                    if found.is_some() {
                        return found;
                    }
                    assert(t.subrange(1, t.len() as int) =~= ms.subrange(i + 1, ms.len() as int));
                    i = i + 1;
                }
                assert(ms.subrange(i as int, ms.len() as int) =~= Seq::<(crate::model::Sym, FieldView)>::empty());
                None
            },
            _ => None,
        }
    }
}

} // verus!

verus! {

/// FO4's `IncreaseLevel` Story Manager root node.
pub open spec fn increase_level_root() -> u32 {
    0x0016_556F
}

/// Whether a node has exactly one parent (`PNAM`) and it is FO4's
/// `IncreaseLevel` root.
pub open spec fn single_level_parent(fields: Seq<EntryView>) -> bool {
    &&& crate::fields::first_with_sig(fields, code('P', 'N', 'A', 'M')) matches Some(i)
    &&& nested_id(fields[i].value) == Some(increase_level_root())
    &&& forall|j: int| 0 <= j < fields.len() && j != i ==> #[trigger] fields[j].sig != code('P', 'N', 'A', 'M')
}

/// Whether a raw row is FO76's level event-data gate: `GetEventData`
/// selecting the level, with no other parameters, run on the subject.
pub open spec fn level_event_row(b: Seq<u8>) -> bool {
    &&& b.len() == 32
    &&& raw_function_id(b) == Some(576u16)
    &&& raw_parameter_1(b) == Some(0x3156_0002u32)
    &&& raw_parameter_2(b) == Some(0u32)
    &&& raw_run_on(b) == Some(0u32)
    &&& raw_reference(b) == Some(0u32)
    &&& raw_parameter_3(b) == Some(u32::MAX)
}

/// A level event-data gate lowered onto FO4 `GetLevel` (80): the function
/// replaced, its padding and first parameter cleared, the row made global.
pub open spec fn level_lowered(b: Seq<u8>) -> Seq<u8> {
    sm_normalized(put_u32(splice(put_u16(b, 8, 80), 10, seq![0u8, 0u8]), 12, 0))
}

/// A condition entry holding a level event-data gate, lowered.
pub open spec fn level_entry(e: EntryView) -> EntryView {
    if is_condition_sig(e.sig) && (e.value matches FieldView::Bytes(b) && level_event_row(b)) {
        EntryView { value: FieldView::Bytes(level_lowered(e.value->Bytes_0)), ..e }
    } else {
        e
    }
}

/// A Story Manager quest node under FO4's `IncreaseLevel` root with its
/// level event-data gates lowered onto `GetLevel`; other records as they
/// are.
pub open spec fn level_event_data_normalized(r: RecordView) -> RecordView {
    if r.sig == code('S', 'M', 'Q', 'N') && single_level_parent(r.fields) {
        RecordView { fields: r.fields.map_values(|e: EntryView| level_entry(e)), ..r }
    } else {
        r
    }
}

fn has_single_level_parent(fields: &Vec<FieldEntry>) -> (r: bool)
    ensures
        r == single_level_parent(crate::model::entries_view(fields@)),
{
    let ghost v = crate::model::entries_view(fields@);
    let pnam = crate::model::tag('P', 'N', 'A', 'M');
    match crate::fields::find_sig(fields, pnam) {
        None => false,
        Some(i) => {
            assert(i < fields.len());
            assert(v[i as int].value == fields@[i as int].value@);
            proof {
                crate::fields::lemma_first_where_bounds(v, |e: EntryView| e.sig == pnam);
                assert forall|k: int| 0 <= k < i implies v[k].sig != pnam by {
                    assert(!(|e: EntryView| e.sig == pnam)(v[k]));
                }
            }
            if Fo76Fo4Hook::nested_form_id(&fields[i].value) != Some(0x0016_556Fu32) {
                return false;
            }
            let mut j: usize = i + 1;
            while j < fields.len()
                invariant
                    i < j <= fields.len(),
                    pnam == code('P', 'N', 'A', 'M'),
                    v == crate::model::entries_view(fields@),
                    crate::fields::first_with_sig(v, pnam) == Some(i as int),
                    forall|k: int| 0 <= k < i ==> v[k].sig != pnam,
                    forall|k: int| i < k < j ==> #[trigger] v[k].sig != pnam,
                decreases fields.len() - j,
            {
                if crate::model::same_code(fields[j].sig.0, pnam) {
                    assert(v[j as int].sig == pnam);
                    assert(!single_level_parent(v)) by {
                        assert(j as int != i as int && 0 <= j < v.len());
                    }
                    return false;
                }
                j = j + 1;
            }
            proof {
                crate::fields::lemma_first_with_sig(v, pnam, i as int);
            }
            true
        },
    }
}

fn level_entry_exec(e: FieldEntry) -> (r: FieldEntry)
    ensures
        r@ == level_entry(e@),
{
    let FieldEntry { sig, value } = e;
    if !sig_is(sig.0, 'C', 'T', 'D', 'A') && !sig_is(sig.0, 'C', 'T', 'D', 'T') {
        return FieldEntry { sig: sig, value: value };
    }
    let value = match value {
        FieldValue::Bytes(bytes) => {
            let mut bytes = bytes;
            if bytes.len() == 32 {
                let (f, p1, p2, run_on, reference, p3, _c) = raw_fields(bytes.as_slice());
                if f == 576 && p1 == 0x3156_0002 && p2 == 0 && run_on == 0 && reference == 0 && p3 == 0xffff_ffff {
                    let ghost b = bytes@;
                    put_u16_exec(&mut bytes, 8, 80);
                    let ghost b1 = bytes@;
                    bytes.set(10, 0);
                    bytes.set(11, 0);
                    assert(bytes@ =~= splice(b1, 10, seq![0u8, 0u8]));
                    Fo76Fo4Hook::set_raw_condition_parameter_1(&mut bytes, 0);
                    Fo76Fo4Hook::normalize_story_manager_quest_condition(&mut bytes);
                }
            }
            FieldValue::Bytes(bytes)
        },
        other => other,
    };
    FieldEntry { sig: sig, value: value }
}

impl Fo76Fo4Hook {
    /// Lower the level event-data gates of a Story Manager quest node under
    /// FO4's `IncreaseLevel` root onto `GetLevel`.
    pub fn normalize_fo76_story_manager_level_event_data(record: &mut Record)
        ensures
            final(record)@ == level_event_data_normalized(old(record)@),
    {
        if !sig_is(record.sig.0, 'S', 'M', 'Q', 'N') || !has_single_level_parent(&record.fields) {
            return;
        }
        let ghost r0 = record@;
        let ghost orig = r0.fields;
        let mut rest: Vec<FieldEntry> = Vec::new();
        core::mem::swap(&mut record.fields, &mut rest);
        let n = rest.len();
        let mut idx: usize = 0;
        while idx < n
            invariant
                orig.len() == n,
                idx <= n,
                rest@.len() == n - idx,
                forall|j: int| 0 <= j < rest@.len() ==> rest@[j]@ == orig[idx + j],
                record.fields@.len() == idx,
                forall|j: int| 0 <= j < idx ==> #[trigger] record.fields@[j]@ == level_entry(orig[j]),
                record@.sig == r0.sig,
                record@.form_key == r0.form_key,
                record@.eid == r0.eid,
            decreases n - idx,
        {
            let e = rest.remove(0);
            let m = level_entry_exec(e);
            record.fields.push(m);
            idx = idx + 1;
        }
        assert(record@.fields =~= level_event_data_normalized(r0).fields);
    }
}

} // verus!

verus! {

proof fn lemma_put_u32_elsewhere(b: Seq<u8>, off: int, v: u32)
    requires
        0 <= off,
    ensures
        put_u32(b, off, v).len() == b.len(),
        forall|i: int| 0 <= i < b.len() && (i < off || i >= off + 4) ==> #[trigger] put_u32(b, off, v)[i] == b[i],
{
    if off + 4 <= b.len() {
        let t = splice(b, off, u32_bytes(v));
        assert forall|i: int| 0 <= i < b.len() && (i < off || i >= off + 4) implies #[trigger] t[i] == b[i] by {
            if i < off {
                assert(t[i] == b.subrange(0, off)[i]);
            } else {
                assert(t[i] == b.subrange(off + 4, b.len() as int)[i - off - 4]);
            }
        }
    }
}

proof fn lemma_count_lowered_function(b: Seq<u8>, t: u32)
    requires
        b.len() >= 32,
    ensures
        count_lowered(b, t).len() == b.len(),
        raw_function_id(count_lowered(b, t)) == Some(543u16),
{
    let b1 = put_u16(b, 8, 543);
    crate::bytes::lemma_le16_splice(b, 8, 543);
    let b2 = b1.update(0, b1[0] & 0x1fu8);
    let b3 = splice(b2, 4, u32_bytes(t));
    lemma_put_u32_elsewhere(b2, 4, t);
    assert(b3 == put_u32(b2, 4, t));
    let c1 = put_u32(b3, 16, 0);
    lemma_put_u32_elsewhere(b3, 16, 0);
    let c2 = put_u32(c1, 20, 0);
    lemma_put_u32_elsewhere(c1, 20, 0);
    let c3 = put_u32(c2, 24, 0);
    lemma_put_u32_elsewhere(c2, 24, 0);
    let c4 = put_u32(c3, 28, u32::MAX);
    lemma_put_u32_elsewhere(c3, 28, u32::MAX);
    assert(c4 == count_lowered(b, t));
    assert(c4[8] == b1[8] && c4[9] == b1[9]);
}

proof fn lemma_completion_entry_once(e: EntryView)
    ensures
        completion_entry(completion_entry(e)) == completion_entry(e),
{
    if is_condition_sig(e.sig) {
        if let FieldView::Bytes(b) = e.value {
            if let Some(p) = completion_lowering(b) {
                lemma_count_lowered_function(b, p.0);
            }
        }
    }
}

/// A completion-count condition is lowered once: lowering the conditions of
/// a record whose conditions were lowered already changes nothing.
pub proof fn law_completion_lowering_once(r: RecordView)
    ensures
        completion_conditions_lowered(completion_conditions_lowered(r)) == completion_conditions_lowered(r),
{
    let once = completion_conditions_lowered(r);
    assert forall|j: int| 0 <= j < r.fields.len() implies #[trigger] completion_entry(once.fields[j]) == once.fields[j] by {
        lemma_completion_entry_once(r.fields[j]);
    }
    assert(completion_conditions_lowered(once).fields =~= once.fields);
}

/// Lowering a completion count keeps every count the source accepted: at 0
/// and at each probe count where `count <op> c` holds, FO4's
/// `GetQuestCompleted` (0 before any completion, 1 after) equals the
/// carried comparison value.
pub proof fn law_completion_lowering_keeps_accepted_counts(op: u8, c: u32, k: int)
    requires
        completed_comparison(op, c) is Some,
        0 <= k < 6,
    ensures
        completed_comparison(op, c) matches Some(p) && (numeric_matches(0, op, c) ==> p.0 == 0u32) && (
        numeric_matches(completion_probes()[k], op, c) ==> p.0 == f32_one_bits()),
{
}

} // verus!

verus! {

/// A raw condition row calling FO76's `GetEditorLocationHasKeyword` (579)
/// calls FO4's `LocationHasKeyword` (562) instead.
pub open spec fn editor_location_entry(e: EntryView) -> EntryView {
    if is_condition_sig(e.sig) && (e.value matches FieldView::Bytes(b) && raw_function_id(b) == Some(579u16)) {
        EntryView { value: FieldView::Bytes(put_u16(e.value->Bytes_0, 8, 562)), ..e }
    } else {
        e
    }
}

/// A raw condition row calling FO76's `GetIsPlayer` (828) calls FO4's
/// `GetIsID` (72) on the player actor (7) instead.
pub open spec fn is_player_entry(e: EntryView) -> EntryView {
    if is_condition_sig(e.sig) && (e.value matches FieldView::Bytes(b) && raw_function_id(b) == Some(828u16)) {
        EntryView { value: FieldView::Bytes(put_u32(put_u16(e.value->Bytes_0, 8, 72), 12, 7)), ..e }
    } else {
        e
    }
}

fn remap_entry_exec(e: FieldEntry, is_player: bool) -> (r: FieldEntry)
    ensures
        is_player ==> r@ == is_player_entry(e@),
        !is_player ==> r@ == editor_location_entry(e@),
{
    let FieldEntry { sig, value } = e;
    if !sig_is(sig.0, 'C', 'T', 'D', 'A') && !sig_is(sig.0, 'C', 'T', 'D', 'T') {
        return FieldEntry { sig: sig, value: value };
    }
    let value = match value {
        FieldValue::Bytes(bytes) => {
            let mut bytes = bytes;
            let id = Fo76Fo4Hook::raw_condition_function_id(bytes.as_slice());
            if is_player && id == Some(828u16) {
                put_u16_exec(&mut bytes, 8, 72);
                Fo76Fo4Hook::set_raw_condition_parameter_1(&mut bytes, 7);
            } else if !is_player && id == Some(579u16) {
                put_u16_exec(&mut bytes, 8, 562);
            }
            FieldValue::Bytes(bytes)
        },
        other => other,
    };
    FieldEntry { sig: sig, value: value }
}

fn remap_conditions(record: &mut Record, is_player: bool)
    ensures
        is_player ==> final(record)@ == (RecordView {
            fields: old(record)@.fields.map_values(|e: EntryView| is_player_entry(e)),
            ..old(record)@
        }),
        !is_player ==> final(record)@ == (RecordView {
            fields: old(record)@.fields.map_values(|e: EntryView| editor_location_entry(e)),
            ..old(record)@
        }),
{
    let ghost r0 = record@;
    let ghost orig = r0.fields;
    let mut rest: Vec<FieldEntry> = Vec::new();
    core::mem::swap(&mut record.fields, &mut rest);
    let n = rest.len();
    let mut idx: usize = 0;
    while idx < n
        invariant
            orig.len() == n,
            idx <= n,
            rest@.len() == n - idx,
            forall|j: int| 0 <= j < rest@.len() ==> rest@[j]@ == orig[idx + j],
            record.fields@.len() == idx,
            forall|j: int| 0 <= j < idx ==> #[trigger] record.fields@[j]@ == (if is_player {
                is_player_entry(orig[j])
            } else {
                editor_location_entry(orig[j])
            }),
            record@.sig == r0.sig,
            record@.form_key == r0.form_key,
            record@.eid == r0.eid,
        decreases n - idx,
    {
        let e = rest.remove(0);
        let m = remap_entry_exec(e, is_player);
        record.fields.push(m);
        idx = idx + 1;
    }
    if is_player {
        assert(record@.fields =~= orig.map_values(|e: EntryView| is_player_entry(e)));
    } else {
        assert(record@.fields =~= orig.map_values(|e: EntryView| editor_location_entry(e)));
    }
}

impl Fo76Fo4Hook {
    /// Call FO4's `LocationHasKeyword` where FO76 calls
    /// `GetEditorLocationHasKeyword`.
    pub fn normalize_fo76_editor_location_has_keyword_conditions(record: &mut Record)
        ensures
            final(record)@ == (RecordView {
                fields: old(record)@.fields.map_values(|e: EntryView| editor_location_entry(e)),
                ..old(record)@
            }),
    {
        remap_conditions(record, false);
    }

    /// Call FO4's `GetIsID(Player)` where FO76 calls `GetIsPlayer`.
    pub fn normalize_fo76_get_is_player_conditions(record: &mut Record)
        ensures
            final(record)@ == (RecordView {
                fields: old(record)@.fields.map_values(|e: EntryView| is_player_entry(e)),
                ..old(record)@
            }),
    {
        remap_conditions(record, true);
    }
}

} // verus!
