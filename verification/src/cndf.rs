//! FO76 named condition forms (`CNDF`) and their inlining.
//!
//! FO76 function 875 dereferences a condition form: `Fn875(<CNDF>) == 1`
//! means "the form's conditions hold". FO4 has neither the record nor the
//! function, so each such row is replaced by the form's own rows where the
//! flat FO4 condition list can express the result exactly.
//!
//! A FO4 condition list groups by one bit, Or (`flags & 1`): a maximal run of
//! consecutive Or-flagged rows is one OR group, and groups and unflagged rows
//! are ANDed. With `S` the (recursively expanded) rows of the form, `flag`
//! the Or flag of the replaced row and `pos` its polarity:
//!   * `|S| == 1`: substitute, carrying `flag` (and the complemented operator
//!     when `!pos`);
//!   * `pos`, `|S| > 1`, `flag` clear: splice `S` as it is, refused when a
//!     flagged first or last row of `S` would merge with a flagged neighbour;
//!   * `pos`, `|S| > 1`, `flag` set: refused (an AND inside an OR group);
//!   * `!pos`, `|S| > 1`, `S` all ANDed: De Morgan, every row complemented and
//!     Or-flagged; with `flag` clear refused when it would merge with a
//!     flagged neighbour;
//!   * `!pos`, `|S| > 1`, `S` holding an OR group: refused.
//! A refused block is left as it is, and the incompatible-condition pass drops
//! the 875 row later.
use vstd::prelude::*;
use crate::conditions::{incompatible_function, is_fo4_incompatible_condition_function_id, raw_function_id, raw_operator, raw_run_on};
use crate::effects::Fo76Fo4Hook;
use crate::bytes::{le32, read_u32_le};
use crate::floatbits::{f32_bits_eq, f32_eq};
use crate::conditions::{condition_sig, condition_string_sig, is_condition_sig, is_condition_string_sig};
use crate::model::{code, EntryView, FieldEntry, FieldValue, FieldView, Record, RecordView};
use crate::story::{comparison_unless_global, f32_one_bits, raw_comparison};

verus! {

#[verifier::external_type_specification]
#[verifier::external_body]
pub struct ExFxBuildHasher(rustc_hash::FxBuildHasher);

/// One FO76 named condition form: its raw condition rows, and whether it
/// carries `CIS1`/`CIS2` parameter strings (which are positional and would
/// have to travel with their row, so such a form is never spliced).
pub struct ConditionForm {
    pub rows: Vec<Vec<u8>>,
    pub has_parameter_strings: bool,
}

/// The rows of a list of raw rows, as sequences.
pub open spec fn rows_view(rows: Seq<Vec<u8>>) -> Seq<Seq<u8>> {
    Seq::new(rows.len(), |i: int| rows[i]@)
}

/// The model of a condition form: its rows and its parameter-strings flag.
pub open spec fn form_view(f: ConditionForm) -> (Seq<Seq<u8>>, bool) {
    (rows_view(f.rows@), f.has_parameter_strings)
}

/// A table of condition forms by object id.
pub type FormTable = rustc_hash::FxHashMap<u32, ConditionForm>;

/// What a form table holds: object id to form model.
pub uninterp spec fn form_table(m: FormTable) -> Map<u32, (Seq<Seq<u8>>, bool)>;

/// `FxHashMap::default`: an empty table.
#[verifier::external_body]
fn table_new() -> (table: FormTable)
    ensures
        form_table(table).dom() == Set::<u32>::empty(),
{
    rustc_hash::FxHashMap::default()
}

/// `HashMap::insert` on a form table: the key now maps to the form, every
/// other key as before.
#[verifier::external_body]
fn table_insert(m: &mut FormTable, key: u32, form: ConditionForm)
    ensures
        form_table(*final(m)) == form_table(*old(m)).insert(key, form_view(form)),
{
    m.insert(key, form);
}

/// `HashMap::get` on a form table: the form the key maps to, if any.
#[verifier::external_body]
fn table_get(m: &FormTable, key: u32) -> (r: Option<&ConditionForm>)
    ensures
        match r {
            Some(f) => form_table(*m).contains_key(key) && form_table(*m)[key] == form_view(*f),
            None => !form_table(*m).contains_key(key),
        },
{
    m.get(&key)
}

/// `HashMap::len` on a form table: the number of keys.
#[verifier::external_body]
fn table_len(m: &FormTable) -> (n: usize)
    ensures
        n == form_table(*m).len(),
{
    m.len()
}

/// The source plugin's condition forms, by object id, with the master index
/// the plugin refers to itself by (the high byte of an in-plugin form id).
pub struct ConditionFormCatalog {
    own_master_index: u8,
    forms: FormTable,
}

impl ConditionFormCatalog {
    /// The plugin's own master index.
    pub closed spec fn own(&self) -> u8 {
        self.own_master_index
    }

    /// The forms, by object id.
    pub closed spec fn forms(&self) -> Map<u32, (Seq<Seq<u8>>, bool)> {
        form_table(self.forms)
    }

    /// The catalog holds finitely many forms.
    pub open spec fn wf(&self) -> bool {
        self.forms().dom().finite()
    }

    /// An empty catalog for a plugin that refers to itself by
    /// `own_master_index`.
    pub fn new(own_master_index: u8) -> (r: Self)
        ensures
            r.wf(),
            r.own() == own_master_index,
            r.forms() == Map::<u32, (Seq<Seq<u8>>, bool)>::empty(),
    {
        ConditionFormCatalog { own_master_index, forms: table_new() }
    }

    /// Record a form under the object id (low 24 bits) of `object_id`.
    pub fn insert(&mut self, object_id: u32, rows: Vec<Vec<u8>>, has_parameter_strings: bool)
        requires
            old(self).wf(),
        ensures
            final(self).wf(),
            final(self).own() == old(self).own(),
            final(self).forms() == old(self).forms().insert(
                object_id & 0x00ff_ffff,
                (rows_view(rows@), has_parameter_strings),
            ),
            forall|raw: u32|
                (raw >> 24) as u8 == old(self).own() && raw & 0x00ff_ffff == object_id & 0x00ff_ffff ==> #[trigger] catalog_lookup(
                    *final(self),
                    raw,
                ) == Some((rows_view(rows@), has_parameter_strings)),
    {
        let form = ConditionForm { rows, has_parameter_strings };
        table_insert(&mut self.forms, object_id & 0x00ff_ffff, form);
    }

    /// The number of forms.
    pub fn len(&self) -> (n: usize)
        ensures
            n == self.forms().len(),
    {
        table_len(&self.forms)
    }

    /// The form a raw form id names, when the id is the plugin's own.
    pub fn get(&self, raw_form_id: u32) -> (r: Option<&ConditionForm>)
        ensures
            match r {
                Some(f) => catalog_lookup(*self, raw_form_id) == Some(form_view(*f)),
                None => catalog_lookup(*self, raw_form_id) is None,
            },
    {
        if ((raw_form_id >> 24) as u8) != self.own_master_index {
            return None;
        }
        table_get(&self.forms, raw_form_id & 0x00ff_ffff)
    }
}

/// The form a raw form id names: none unless its high byte is the plugin's
/// own master index, else the form under its low 24 bits.
pub open spec fn catalog_lookup(c: ConditionFormCatalog, raw: u32) -> Option<(Seq<Seq<u8>>, bool)> {
    if ((raw >> 24) as u8) != c.own() {
        None
    } else if c.forms().contains_key(raw & 0x00ff_ffff) {
        Some(c.forms()[raw & 0x00ff_ffff])
    } else {
        None
    }
}

} // verus!

verus! {

/// Why a condition-form row could not be inlined.
#[derive(Clone, Copy, Debug, PartialEq, Eq, Structural)]
pub enum InlineRefusal {
    /// The form has no conditions.
    EmptyForm,
    /// A row's operator has no complement.
    NoComplement,
    /// A multi-row form in an OR slot would need an AND inside an OR group.
    AndInOrSlot,
    /// The spliced rows would merge with the preceding host OR group.
    MergesPreceding,
    /// The spliced rows would merge with the following host OR group.
    MergesFollowing,
    /// Negating a form holding an OR group would need an OR of ANDs.
    NegatedOrGroup,
    /// The 875 row does not run on the subject.
    NotSubject,
    /// The 875 row targets an explicit reference.
    ExplicitReference,
    /// The 875 row is not a plain boolean test of the form.
    NotBoolean,
    /// The form is not in the source plugin.
    MissingForm,
    /// The form carries `CIS1`/`CIS2` parameter strings.
    ParameterStrings,
    /// The form reaches itself through nested forms.
    Cycle,
    /// An expanded row is one FO4 cannot evaluate.
    UnusableRow,
}

/// Whether a raw row carries the Or flag.
pub open spec fn row_ored(r: Seq<u8>) -> bool {
    r.len() > 0 && r[0] & 1u8 != 0
}

/// A raw row with its Or flag set or cleared.
pub open spec fn with_or_flag(r: Seq<u8>, ored: bool) -> Seq<u8> {
    if r.len() == 0 {
        r
    } else if ored {
        r.update(0, r[0] | 1u8)
    } else {
        r.update(0, r[0] & 0xfeu8)
    }
}

/// The operator testing the opposite of `op`: `==`/`!=`, `>`/`<=`,
/// `>=`/`<`.
pub open spec fn complement(op: u8) -> Option<u8> {
    if op == 0 {
        Some(1u8)
    } else if op == 1 {
        Some(0u8)
    } else if op == 2 {
        Some(5u8)
    } else if op == 3 {
        Some(4u8)
    } else if op == 4 {
        Some(3u8)
    } else if op == 5 {
        Some(2u8)
    } else {
        None
    }
}

/// A raw row testing the opposite: its operator complemented, its flags
/// kept.
pub open spec fn negated_row(r: Seq<u8>) -> Option<Seq<u8>> {
    if r.len() == 0 {
        None
    } else {
        match complement(r[0] / 32) {
            Some(c) => Some(r.update(0, (r[0] & 0x1fu8) | ((c * 32) as u8))),
            None => None,
        }
    }
}

/// Whether an 875 row asserts its form holds (`== 1`, `!= 0`), asserts it
/// does not (`== 0`, `!= 1`), or is no plain boolean test.
pub open spec fn polarity(r: Seq<u8>) -> Option<bool> {
    match (raw_operator(r), raw_comparison(r)) {
        (Some(op), Some(c)) => if op == 0 && f32_eq(c, f32_one_bits()) {
            Some(true)
        } else if op == 0 && f32_eq(c, 0) {
            Some(false)
        } else if op == 1 && f32_eq(c, 0) {
            Some(true)
        } else if op == 1 && f32_eq(c, f32_one_bits()) {
            Some(false)
        } else {
            None
        },
        _ => None,
    }
}

/// The FO76-only functions the remapping pass rewrites to FO4 ones.
pub open spec fn remapped_id(id: u16) -> bool {
    id == 276 || id == 579 || id == 828 || id == 844 || id == 856 || id == 876
}

/// Whether FO4 cannot evaluate an inlined row: a function with no FO4 slot
/// that no later pass rewrites (completion counts are lowered), or a run-on
/// target above FO4's highest (7).
pub open spec fn unusable(r: Seq<u8>) -> bool {
    match raw_function_id(r) {
        None => false,
        Some(id) => (!(remapped_id(id) || id == 857) && incompatible_function(id)) || (raw_run_on(r) matches Some(
            run_on,
        ) && run_on > 7),
    }
}

/// The rows replacing one 875 slot, from the form's expanded rows `ex`, the
/// slot's Or flag and polarity, and the host rows before and after it.
pub open spec fn compose(
    ex: Seq<Seq<u8>>,
    slot_ored: bool,
    positive: bool,
    prev: Option<Seq<u8>>,
    next: Option<Seq<u8>>,
) -> Result<Seq<Seq<u8>>, InlineRefusal> {
    if ex.len() == 0 {
        Err(InlineRefusal::EmptyForm)
    } else if ex.len() == 1 {
        if positive {
            Ok(seq![with_or_flag(ex[0], slot_ored)])
        } else {
            match negated_row(ex[0]) {
                Some(n) => Ok(seq![with_or_flag(n, slot_ored)]),
                None => Err(InlineRefusal::NoComplement),
            }
        }
    } else if positive {
        if slot_ored {
            Err(InlineRefusal::AndInOrSlot)
        } else if row_ored(ex[0]) && (prev matches Some(p) && row_ored(p)) {
            Err(InlineRefusal::MergesPreceding)
        } else if row_ored(ex.last()) && (next matches Some(n) && row_ored(n)) {
            Err(InlineRefusal::MergesFollowing)
        } else {
            Ok(ex)
        }
    } else if exists|k: int| 0 <= k < ex.len() && row_ored(#[trigger] ex[k]) {
        Err(InlineRefusal::NegatedOrGroup)
    } else if !slot_ored && (prev matches Some(p) && row_ored(p)) {
        Err(InlineRefusal::MergesPreceding)
    } else if !slot_ored && (next matches Some(n) && row_ored(n)) {
        Err(InlineRefusal::MergesFollowing)
    } else if forall|k: int| 0 <= k < ex.len() ==> #[trigger] negated_row(ex[k]) is Some {
        Ok(Seq::new(ex.len(), |k: int| with_or_flag(negated_row(ex[k])->0, true)))
    } else {
        Err(InlineRefusal::NoComplement)
    }
}

fn row_is_ored(row: &Vec<u8>) -> (r: bool)
    ensures
        r == row_ored(row@),
{
    row.len() > 0 && row[0] & 1 != 0
}

fn row_with_or_flag(row: &Vec<u8>, ored: bool) -> (r: Vec<u8>)
    ensures
        r@ == with_or_flag(row@, ored),
{
    let mut out = crate::model::copy_bytes(row.as_slice());
    if out.len() > 0 {
        let b = out[0];
        if ored {
            out.set(0, b | 1);
        } else {
            out.set(0, b & 0xfe);
        }
    }
    out
}

fn negated_condition_row(row: &Vec<u8>) -> (r: Option<Vec<u8>>)
    ensures
        match r {
            Some(v) => negated_row(row@) == Some(v@),
            None => negated_row(row@) is None,
        },
{
    if row.len() == 0 {
        return None;
    }
    let op = row[0] / 32;
    let c: u8 = if op == 0 {
        1
    } else if op == 1 {
        0
    } else if op == 2 {
        5
    } else if op == 3 {
        4
    } else if op == 4 {
        3
    } else if op == 5 {
        2
    } else {
        return None;
    };
    let mut out = crate::model::copy_bytes(row.as_slice());
    let b = out[0];
    out.set(0, (b & 0x1f) | (c * 32));
    Some(out)
}

fn condition_form_polarity(row: &Vec<u8>) -> (r: Option<bool>)
    ensures
        r == polarity(row@),
{
    let op = match Fo76Fo4Hook::raw_condition_operator(row.as_slice()) {
        Some(op) => op,
        None => return None,
    };
    let c = match comparison_unless_global(row.as_slice()) {
        Some(c) => c,
        None => return None,
    };
    if op == 0 && f32_bits_eq(c, 0x3f80_0000) {
        Some(true)
    } else if op == 0 && f32_bits_eq(c, 0) {
        Some(false)
    } else if op == 1 && f32_bits_eq(c, 0) {
        Some(true)
    } else if op == 1 && f32_bits_eq(c, 0x3f80_0000) {
        Some(false)
    } else {
        None
    }
}

fn unusable_inlined_row(row: &Vec<u8>) -> (r: bool)
    ensures
        r == unusable(row@),
{
    let id = match Fo76Fo4Hook::raw_condition_function_id(row.as_slice()) {
        Some(id) => id,
        None => return false,
    };
    let remapped = id == 276 || id == 579 || id == 828 || id == 844 || id == 856 || id == 876 || id == 857;
    if !remapped && is_fo4_incompatible_condition_function_id(id) {
        return true;
    }
    match Fo76Fo4Hook::raw_condition_run_on(row.as_slice()) {
        Some(run_on) => run_on > 7,
        None => false,
    }
}

fn compose_condition_form(
    expanded: &Vec<Vec<u8>>,
    slot_is_ored: bool,
    positive: bool,
    previous: Option<&Vec<u8>>,
    next: Option<&Vec<u8>>,
) -> (r: Result<Vec<Vec<u8>>, InlineRefusal>)
    ensures
        match r {
            Ok(v) => compose(
                rows_view(expanded@),
                slot_is_ored,
                positive,
                match previous { Some(p) => Some(p@), None => None },
                match next { Some(n) => Some(n@), None => None },
            ) == Ok::<Seq<Seq<u8>>, InlineRefusal>(rows_view(v@)),
            Err(e) => compose(
                rows_view(expanded@),
                slot_is_ored,
                positive,
                match previous { Some(p) => Some(p@), None => None },
                match next { Some(n) => Some(n@), None => None },
            ) == Err::<Seq<Seq<u8>>, InlineRefusal>(e),
        },
{
    let ghost ex = rows_view(expanded@);
    assert(ex.len() == expanded@.len());
    let prev_ored = match previous {
        Some(p) => row_is_ored(p),
        None => false,
    };
    let next_ored = match next {
        Some(n) => row_is_ored(n),
        None => false,
    };
    if expanded.len() == 0 {
        return Err(InlineRefusal::EmptyForm);
    }
    if expanded.len() == 1 {
        assert(ex[0] == expanded@[0]@);
        let row = if positive {
            row_with_or_flag(&expanded[0], slot_is_ored)
        } else {
            match negated_condition_row(&expanded[0]) {
                Some(n) => row_with_or_flag(&n, slot_is_ored),
                None => return Err(InlineRefusal::NoComplement),
            }
        };
        let out = vec![row];
        assert(rows_view(out@) =~= seq![row@]);
        return Ok(out);
    }
    if positive {
        let last = expanded.len() - 1;
        assert(ex[0] == expanded@[0]@);
        assert(ex.last() == expanded@[last as int]@);
        if slot_is_ored {
            return Err(InlineRefusal::AndInOrSlot);
        }
        if row_is_ored(&expanded[0]) && prev_ored {
            return Err(InlineRefusal::MergesPreceding);
        }
        if row_is_ored(&expanded[last]) && next_ored {
            return Err(InlineRefusal::MergesFollowing);
        }
        let mut out: Vec<Vec<u8>> = Vec::new();
        let mut k: usize = 0;
        while k < expanded.len()
            invariant
                k <= expanded@.len(),
                ex == rows_view(expanded@),
                ex.len() == expanded@.len(),
                out@.len() == k,
                rows_view(out@) == ex.subrange(0, k as int),
            decreases expanded.len() - k,
        {
            let ghost before = out@;
            let row = crate::model::copy_bytes(expanded[k].as_slice());
            assert(row@ == ex[k as int]);
            out.push(row);
            assert forall|j: int| 0 <= j < k + 1 implies #[trigger] rows_view(out@)[j] == ex.subrange(0, k + 1)[j] by {
                if j < k {
                    assert(out@[j] == before[j]);
                    assert(rows_view(before)[j] == ex.subrange(0, k as int)[j]);
                }
            }
            assert(rows_view(out@) =~= ex.subrange(0, k + 1));
            k = k + 1;
        }
        assert(ex.subrange(0, ex.len() as int) =~= ex);
        return Ok(out);
    }
    let mut k: usize = 0;
    #[verifier::loop_isolation(false)]
    while k < expanded.len()
        invariant
            k <= expanded@.len(),
            ex == rows_view(expanded@),
            forall|j: int| 0 <= j < k ==> !row_ored(#[trigger] ex[j]),
        decreases expanded.len() - k,
    {
        assert(ex[k as int] == expanded@[k as int]@);
        if row_is_ored(&expanded[k]) {
            assert(ex[k as int] == expanded@[k as int]@);
            assert(row_ored(ex[k as int]));
            assert(exists|j: int| 0 <= j < ex.len() && row_ored(#[trigger] ex[j]));
            return Err(InlineRefusal::NegatedOrGroup);
        }
        k = k + 1;
    }
    if !slot_is_ored && prev_ored {
        return Err(InlineRefusal::MergesPreceding);
    }
    if !slot_is_ored && next_ored {
        return Err(InlineRefusal::MergesFollowing);
    }
    let mut out: Vec<Vec<u8>> = Vec::new();
    let mut k: usize = 0;
    #[verifier::loop_isolation(false)]
    while k < expanded.len()
        invariant
            k <= expanded@.len(),
            ex == rows_view(expanded@),
            forall|j: int| 0 <= j < ex.len() ==> !row_ored(#[trigger] ex[j]),
            forall|j: int| 0 <= j < k ==> #[trigger] negated_row(ex[j]) is Some,
            out@.len() == k,
            forall|j: int| 0 <= j < k ==> #[trigger] out@[j]@ == with_or_flag(negated_row(ex[j])->0, true),
        decreases expanded.len() - k,
    {
        match negated_condition_row(&expanded[k]) {
            Some(n) => {
                out.push(row_with_or_flag(&n, true));
            },
            None => {
                assert(ex[k as int] == expanded@[k as int]@);
                assert(negated_row(ex[k as int]) is None);
                assert(!(forall|j: int| 0 <= j < ex.len() ==> #[trigger] negated_row(ex[j]) is Some));
                assert(!(exists|j: int| 0 <= j < ex.len() && row_ored(#[trigger] ex[j])));
                return Err(InlineRefusal::NoComplement);
            },
        }
        k = k + 1;
    }
    assert(rows_view(out@) =~= Seq::new(ex.len(), |j: int| with_or_flag(negated_row(ex[j])->0, true)));
    Ok(out)
}

} // verus!

verus! {

/// Whether a chain of forms being expanded is sound: each a form of the
/// catalog, none twice.
pub open spec fn path_ok(c: ConditionFormCatalog, path: Seq<u32>) -> bool {
    &&& c.wf()
    &&& path.no_duplicates()
    &&& forall|k: int| 0 <= k < path.len() ==> #[trigger] catalog_lookup(c, path[k]) is Some
}

pub proof fn lemma_path_len(c: ConditionFormCatalog, path: Seq<u32>)
    requires
        path_ok(c, path),
    ensures
        path.len() <= c.forms().dom().len(),
{
    broadcast use vstd::seq_lib::seq_to_set_is_finite;

    path.unique_seq_to_set();
    let s = path.to_set();
    let f = |p: u32| p & 0x00ff_ffffu32;
    let img = s.map(f);
    assert forall|a: u32, b: u32| s.contains(a) && s.contains(b) && #[trigger] f(a) == #[trigger] f(b) implies a == b by {
        let ia = choose|i: int| 0 <= i < path.len() && path[i] == a;
        let ib = choose|i: int| 0 <= i < path.len() && path[i] == b;
        assert(catalog_lookup(c, path[ia]) is Some);
        assert(catalog_lookup(c, path[ib]) is Some);
        let own = c.own();
        assert(a == b) by (bit_vector)
            requires
                (a >> 24) as u8 == own,
                (b >> 24) as u8 == own,
                a & 0x00ff_ffffu32 == b & 0x00ff_ffffu32,
        ;
    }
    assert(vstd::relations::injective_on(f, s));
    vstd::set_lib::lemma_map_size(s, img, f);
    assert forall|x: u32| img.contains(x) implies c.forms().dom().contains(x) by {
        let a = choose|a: u32| s.contains(a) && f(a) == x;
        let i = choose|i: int| 0 <= i < path.len() && path[i] == a;
        assert(catalog_lookup(c, path[i]) is Some);
    }
    vstd::set_lib::lemma_len_subset(img, c.forms().dom());
}

/// An expanded row: the index of the host row it came through untouched
/// from, if any, and its bytes.
pub struct ExpandedRow {
    pub origin: Option<usize>,
    pub bytes: Vec<u8>,
}

/// The model of expanded rows.
pub open spec fn expanded_view(v: Seq<ExpandedRow>) -> Seq<(Option<int>, Seq<u8>)> {
    Seq::new(
        v.len(),
        |i: int|
            (
                match v[i].origin {
                    Some(o) => Some(o as int),
                    None => None,
                },
                v[i].bytes@,
            ),
    )
}

/// The rows `rows[i..]` expand to, when `path` is the chain of forms being
/// expanded: each row expanded in turn, the first refusal ending the
/// expansion.
pub open spec fn expand_rows(
    rows: Seq<Seq<u8>>,
    c: ConditionFormCatalog,
    path: Seq<u32>,
    top: bool,
    i: int,
) -> Result<Seq<(Option<int>, Seq<u8>)>, InlineRefusal>
    decreases c.forms().dom().len() - path.len(), rows.len() - i, 1int when 0 <= i <= rows.len() && path_ok(c, path)
{
    if i >= rows.len() {
        Ok(Seq::empty())
    } else {
        match expand_row(rows, c, path, top, i) {
            Err(e) => Err(e),
            Ok(a) => match expand_rows(rows, c, path, top, i + 1) {
                Err(e) => Err(e),
                Ok(b) => Ok(a + b),
            },
        }
    }
}

/// What row `i` expands to. A row that is not a 32-byte 875 row stays (with
/// its index at the top level). An 875 row must run on the subject with no
/// reference and be a plain boolean test; its form must be the plugin's own,
/// carry no parameter strings and not be one being expanded already; the
/// form's rows are expanded in turn, must all be rows FO4 can evaluate, and
/// are composed into the slot.
pub open spec fn expand_row(
    rows: Seq<Seq<u8>>,
    c: ConditionFormCatalog,
    path: Seq<u32>,
    top: bool,
    i: int,
) -> Result<Seq<(Option<int>, Seq<u8>)>, InlineRefusal>
    decreases c.forms().dom().len() - path.len(), rows.len() - i, 0int when 0 <= i < rows.len() && path_ok(c, path)
{
    let row = rows[i];
    if row.len() != 32 || raw_function_id(row) != Some(875u16) {
        Ok(seq![(if top { Some(i) } else { None }, row)])
    } else if le32(row, 20) != 0 {
        Err(InlineRefusal::NotSubject)
    } else if le32(row, 24) != 0 {
        Err(InlineRefusal::ExplicitReference)
    } else {
        match polarity(row) {
            None => Err(InlineRefusal::NotBoolean),
            Some(positive) => {
                let target = le32(row, 12);
                match catalog_lookup(c, target) {
                    None => Err(InlineRefusal::MissingForm),
                    Some(form) => if form.1 {
                        Err(InlineRefusal::ParameterStrings)
                    } else if path.contains(target) {
                        Err(InlineRefusal::Cycle)
                    } else {
                        proof {
                            let p2 = path.push(target);
                            assert forall|k: int| 0 <= k < p2.len() implies #[trigger] catalog_lookup(c, p2[k]) is Some by {
                                if k < path.len() {
                                    assert(p2[k] == path[k]);
                                }
                            }
                            assert(p2.no_duplicates()) by {
                                assert forall|a: int, b: int| 0 <= a < p2.len() && 0 <= b < p2.len() && a != b implies p2[a] != p2[b] by {
                                    if a < path.len() && b < path.len() {
                                        assert(p2[a] == path[a] && p2[b] == path[b]);
                                    } else if a < path.len() {
                                        assert(p2[a] == path[a]);
                                    } else if b < path.len() {
                                        assert(p2[b] == path[b]);
                                    }
                                }
                            }
                            lemma_path_len(c, p2);
                        }
                        match expand_rows(form.0, c, path.push(target), false, 0) {
                            Err(e) => Err(e),
                            Ok(ex) => splice_form(rows, i, positive, ex),
                        }
                    },
                }
            },
        }
    }
}

/// The bytes of expanded rows.
pub open spec fn expanded_bytes(ex: Seq<(Option<int>, Seq<u8>)>) -> Seq<Seq<u8>> {
    Seq::new(ex.len(), |k: int| ex[k].1)
}

/// What replaces 875 row `rows[i]` once its form expanded to `ex`: refused
/// when FO4 cannot evaluate one of the rows, else the composed rows, none of
/// them tied to a host row.
pub open spec fn splice_form(
    rows: Seq<Seq<u8>>,
    i: int,
    positive: bool,
    ex: Seq<(Option<int>, Seq<u8>)>,
) -> Result<Seq<(Option<int>, Seq<u8>)>, InlineRefusal> {
    let exb = expanded_bytes(ex);
    if exists|k: int| 0 <= k < exb.len() && unusable(#[trigger] exb[k]) {
        Err(InlineRefusal::UnusableRow)
    } else {
        match compose(
            exb,
            row_ored(rows[i]),
            positive,
            if i > 0 { Some(rows[i - 1]) } else { None },
            if i + 1 < rows.len() { Some(rows[i + 1]) } else { None },
        ) {
            Err(e) => Err(e),
            Ok(sp) => Ok(untied(sp)),
        }
    }
}

/// Rows tied to no host row.
pub open spec fn untied(sp: Seq<Seq<u8>>) -> Seq<(Option<int>, Seq<u8>)> {
    Seq::new(sp.len(), |k: int| (None::<int>, sp[k]))
}

} // verus!

verus! {

/// `a` followed by what `r` holds, or `r`'s refusal.
pub open spec fn join(
    a: Seq<(Option<int>, Seq<u8>)>,
    r: Result<Seq<(Option<int>, Seq<u8>)>, InlineRefusal>,
) -> Result<Seq<(Option<int>, Seq<u8>)>, InlineRefusal> {
    match r {
        Ok(b) => Ok(a + b),
        Err(e) => Err(e),
    }
}

proof fn lemma_join_step(
    rows: Seq<Seq<u8>>,
    c: ConditionFormCatalog,
    path: Seq<u32>,
    top: bool,
    i: int,
    o: Seq<(Option<int>, Seq<u8>)>,
)
    requires
        0 <= i < rows.len(),
        path_ok(c, path),
    ensures
        expand_row(rows, c, path, top, i) matches Ok(a) ==> join(o, expand_rows(rows, c, path, top, i)) == join(
            o + a,
            expand_rows(rows, c, path, top, i + 1),
        ),
        expand_row(rows, c, path, top, i) matches Err(e) ==> join(o, expand_rows(rows, c, path, top, i)) == Err::<
            Seq<(Option<int>, Seq<u8>)>,
            InlineRefusal,
        >(e),
{
    if let Ok(a) = expand_row(rows, c, path, top, i) {
        if let Ok(b) = expand_rows(rows, c, path, top, i + 1) {
            assert((o + a) + b =~= o + (a + b));
        }
    }
}

proof fn lemma_path_push(c: ConditionFormCatalog, path: Seq<u32>, target: u32)
    requires
        path_ok(c, path),
        catalog_lookup(c, target) is Some,
        !path.contains(target),
    ensures
        path_ok(c, path.push(target)),
        path.len() + 1 <= c.forms().dom().len(),
{
    let p2 = path.push(target);
    assert forall|k: int| 0 <= k < p2.len() implies #[trigger] catalog_lookup(c, p2[k]) is Some by {
        if k < path.len() {
            assert(p2[k] == path[k]);
        }
    }
    assert forall|a: int, b: int| 0 <= a < p2.len() && 0 <= b < p2.len() && a != b implies p2[a] != p2[b] by {
        if a < path.len() && b < path.len() {
            assert(p2[a] == path[a] && p2[b] == path[b]);
        } else if a < path.len() {
            assert(p2[a] == path[a]);
        } else if b < path.len() {
            assert(p2[b] == path[b]);
        }
    }
    lemma_path_len(c, p2);
}

fn path_contains(path: &Vec<u32>, target: u32) -> (r: bool)
    ensures
        r == path@.contains(target),
{
    let mut k: usize = 0;
    while k < path.len()
        invariant
            k <= path@.len(),
            forall|j: int| 0 <= j < k ==> path@[j] != target,
        decreases path.len() - k,
    {
        if path[k] == target {
            assert(path@[k as int] == target);
            return true;
        }
        k = k + 1;
    }
    false
}

/// Expand one 32-byte 875 row `rows[i]`.
fn expand_form_row(
    rows: &[Vec<u8>],
    i: usize,
    catalog: &ConditionFormCatalog,
    path: &mut Vec<u32>,
    top_level: bool,
) -> (r: Result<Vec<ExpandedRow>, InlineRefusal>)
    requires
        i < rows@.len(),
        rows@[i as int]@.len() == 32,
        raw_function_id(rows@[i as int]@) == Some(875u16),
        path_ok(*catalog, old(path)@),
    ensures
        match r {
            Ok(v) => expand_row(rows_view(rows@), *catalog, old(path)@, top_level, i as int) == Ok::<
                Seq<(Option<int>, Seq<u8>)>,
                InlineRefusal,
            >(expanded_view(v@)) && final(path)@ == old(path)@,
            Err(e) => expand_row(rows_view(rows@), *catalog, old(path)@, top_level, i as int) == Err::<
                Seq<(Option<int>, Seq<u8>)>,
                InlineRefusal,
            >(e),
        },
    decreases catalog.forms().dom().len() - old(path)@.len(), 0int,
{
    let ghost rv = rows_view(rows@);
    let ghost p0 = path@;
    let row = &rows[i];
    assert(rv[i as int] == row@);
    if read_u32_le(row.as_slice(), 20) != 0 {
        return Err(InlineRefusal::NotSubject);
    }
    if read_u32_le(row.as_slice(), 24) != 0 {
        return Err(InlineRefusal::ExplicitReference);
    }
    let positive = match condition_form_polarity(row) {
        Some(p) => p,
        None => return Err(InlineRefusal::NotBoolean),
    };
    let target = read_u32_le(row.as_slice(), 12);
    let form = match catalog.get(target) {
        Some(f) => f,
        None => return Err(InlineRefusal::MissingForm),
    };
    if form.has_parameter_strings {
        return Err(InlineRefusal::ParameterStrings);
    }
    if path_contains(path, target) {
        return Err(InlineRefusal::Cycle);
    }
    proof {
        lemma_path_push(*catalog, p0, target);
    }
    path.push(target);
    let expanded = match expand_condition_form_rows(form.rows.as_slice(), catalog, path, false) {
        Ok(v) => v,
        Err(e) => return Err(e),
    };
    let _ = path.pop();
    assert(path@ =~= p0);
    let ghost ex = expanded_view(expanded@);
    let ghost exb = expanded_bytes(ex);
    let mut bytes_rows: Vec<Vec<u8>> = Vec::new();
    let mut k: usize = 0;
    #[verifier::loop_isolation(false)]
    while k < expanded.len()
        invariant
            k <= expanded@.len(),
            ex == expanded_view(expanded@),
            exb == expanded_bytes(ex),
            bytes_rows@.len() == k,
            forall|j: int| 0 <= j < k ==> #[trigger] bytes_rows@[j]@ == exb[j],
            forall|j: int| 0 <= j < k ==> !unusable(#[trigger] exb[j]),
        decreases expanded.len() - k,
    {
        let b = crate::model::copy_bytes(expanded[k].bytes.as_slice());
        assert(exb[k as int] == expanded@[k as int].bytes@);
        if unusable_inlined_row(&b) {
            assert(unusable(exb[k as int]));
            assert(splice_form(rv, i as int, positive, ex) == Err::<Seq<(Option<int>, Seq<u8>)>, InlineRefusal>(
                InlineRefusal::UnusableRow,
            ));
            return Err(InlineRefusal::UnusableRow);
        }
        bytes_rows.push(b);
        k = k + 1;
    }
    assert(rows_view(bytes_rows@) =~= exb);
    let previous = if i > 0 {
        Some(&rows[i - 1])
    } else {
        None
    };
    let next = if i + 1 < rows.len() {
        Some(&rows[i + 1])
    } else {
        None
    };
    proof {
        if i > 0 {
            assert(rv[i - 1] == rows@[i - 1]@);
        }
        if i + 1 < rows@.len() {
            assert(rv[i + 1] == rows@[i + 1]@);
        }
    }
    let spliced = match compose_condition_form(&bytes_rows, row_is_ored(row), positive, previous, next) {
        Ok(s) => s,
        Err(e) => return Err(e),
    };
    let mut out: Vec<ExpandedRow> = Vec::new();
    let mut k: usize = 0;
    while k < spliced.len()
        invariant
            k <= spliced@.len(),
            out@.len() == k,
            forall|j: int| 0 <= j < k ==> #[trigger] expanded_view(out@)[j] == (None::<int>, spliced@[j]@),
        decreases spliced.len() - k,
    {
        let ghost before = out@;
        out.push(ExpandedRow { origin: None, bytes: crate::model::copy_bytes(spliced[k].as_slice()) });
        proof {
            assert forall|j: int| 0 <= j < k + 1 implies #[trigger] expanded_view(out@)[j] == (None::<int>, spliced@[j]@) by {
                if j < k {
                    assert(out@[j] == before[j]);
                    assert(expanded_view(before)[j] == (None::<int>, spliced@[j]@));
                }
            }
        }
        k = k + 1;
    }
    let ghost sp = rows_view(spliced@);
    assert(expanded_view(out@) =~= untied(sp));
    Ok(out)
}

/// Fully expand every 875 row of `rows`, through nested forms; `path` holds
/// the forms being expanded, so that a cycle is refused.
fn expand_condition_form_rows(
    rows: &[Vec<u8>],
    catalog: &ConditionFormCatalog,
    path: &mut Vec<u32>,
    top_level: bool,
) -> (r: Result<Vec<ExpandedRow>, InlineRefusal>)
    requires
        path_ok(*catalog, old(path)@),
    ensures
        match r {
            Ok(v) => expand_rows(rows_view(rows@), *catalog, old(path)@, top_level, 0) == Ok::<
                Seq<(Option<int>, Seq<u8>)>,
                InlineRefusal,
            >(expanded_view(v@)) && final(path)@ == old(path)@,
            Err(e) => expand_rows(rows_view(rows@), *catalog, old(path)@, top_level, 0) == Err::<
                Seq<(Option<int>, Seq<u8>)>,
                InlineRefusal,
            >(e),
        },
    decreases catalog.forms().dom().len() - old(path)@.len(), 1int,
{
    let ghost rv = rows_view(rows@);
    let ghost p0 = path@;
    let mut out: Vec<ExpandedRow> = Vec::new();
    let mut i: usize = 0;
    proof {
        if let Ok(b) = expand_rows(rv, *catalog, p0, top_level, 0) {
            assert(expanded_view(out@) + b =~= b);
        }
    }
    while i < rows.len()
        invariant
            i <= rows@.len(),
            rv == rows_view(rows@),
            path@ == p0,
            p0 == old(path)@,
            path_ok(*catalog, p0),
            expand_rows(rv, *catalog, p0, top_level, 0) == join(
                expanded_view(out@),
                expand_rows(rv, *catalog, p0, top_level, i as int),
            ),
        decreases rows.len() - i,
    {
        let row = &rows[i];
        assert(rv[i as int] == row@);
        proof {
            lemma_join_step(rv, *catalog, p0, top_level, i as int, expanded_view(out@));
        }
        if row.len() != 32 || Fo76Fo4Hook::raw_condition_function_id(row.as_slice()) != Some(875u16) {
            let ghost before = out@;
            let origin = if top_level {
                Some(i)
            } else {
                None
            };
            out.push(ExpandedRow { origin: origin, bytes: crate::model::copy_bytes(row.as_slice()) });
            assert(expanded_view(out@) =~= expanded_view(before) + seq![
                (if top_level { Some(i as int) } else { None }, rv[i as int]),
            ]);
        } else {
            proof {
                lemma_path_len(*catalog, p0);
            }
            let part = match expand_form_row(rows, i, catalog, path, top_level) {
                Ok(v) => v,
                Err(e) => return Err(e),
            };
            let ghost before = out@;
            let mut part = part;
            let ghost pv = expanded_view(part@);
            out.append(&mut part);
            assert(expanded_view(out@) =~= expanded_view(before) + pv);
        }
        i = i + 1;
    }
    proof {
        assert(expanded_view(out@) + Seq::<(Option<int>, Seq<u8>)>::empty() =~= expanded_view(out@));
    }
    Ok(out)
}

} // verus!

verus! {

/// How many condition parameter strings (`CIS1`/`CIS2`) follow from `j` on.
pub open spec fn strings_len(b: Seq<EntryView>, j: int) -> nat
    decreases b.len() - j,
{
    if 0 <= j < b.len() && is_condition_string_sig(b[j].sig) {
        1 + strings_len(b, j + 1)
    } else {
        0
    }
}

/// A condition block cut into rows from `j` on: each a condition entry and
/// the parameter strings after it.
pub open spec fn groups(b: Seq<EntryView>, j: int) -> Seq<Seq<EntryView>>
    decreases b.len() - j,
{
    if j < 0 || j >= b.len() {
        Seq::empty()
    } else {
        let n = strings_len(b, j + 1);
        proof {
            lemma_strings_len_bound(b, j + 1);
        }
        seq![b.subrange(j, j + 1 + n)] + groups(b, j + 1 + n)
    }
}

pub proof fn lemma_strings_len_bound(b: Seq<EntryView>, j: int)
    ensures
        0 <= j <= b.len() ==> j + strings_len(b, j) <= b.len(),
    decreases b.len() - j,
{
    if 0 <= j < b.len() && is_condition_string_sig(b[j].sig) {
        lemma_strings_len_bound(b, j + 1);
    }
}

/// Whether every row of a block is a raw 32-byte condition.
pub open spec fn block_readable(gs: Seq<Seq<EntryView>>) -> bool {
    forall|k: int| 0 <= k < gs.len() ==> ((#[trigger] gs[k][0]).value matches FieldView::Bytes(b) && b.len() == 32)
}

/// The raw rows of a block.
pub open spec fn block_rows(gs: Seq<Seq<EntryView>>) -> Seq<Seq<u8>> {
    Seq::new(gs.len(), |k: int| gs[k][0].value->Bytes_0)
}

/// Whether some row of a block dereferences a condition form.
pub open spec fn has_form_row(rows: Seq<Seq<u8>>) -> bool {
    exists|k: int| 0 <= k < rows.len() && raw_function_id(#[trigger] rows[k]) == Some(875u16)
}

/// The entries for expanded rows `ex[k..]`: each row under the code of the
/// host row it came from (the block's first code for spliced rows), followed
/// by that host row's parameter strings.
pub open spec fn expanded_entries(ex: Seq<(Option<int>, Seq<u8>)>, gs: Seq<Seq<EntryView>>, k: int) -> Seq<EntryView>
    decreases ex.len() - k,
{
    if k < 0 || k >= ex.len() {
        Seq::empty()
    } else {
        let x = ex[k];
        let head = EntryView {
            sig: match x.0 {
                Some(o) => gs[o][0].sig,
                None => gs[0][0].sig,
            },
            value: FieldView::Bytes(x.1),
        };
        let tail = match x.0 {
            Some(o) => gs[o].subrange(1, gs[o].len() as int),
            None => Seq::empty(),
        };
        seq![head] + tail + expanded_entries(ex, gs, k + 1)
    }
}

/// The expansion of a block, when it is readable, dereferences a form and
/// expands without refusal.
pub open spec fn block_expansion(b: Seq<EntryView>, c: ConditionFormCatalog) -> Option<Seq<EntryView>> {
    let gs = groups(b, 0);
    let rows = block_rows(gs);
    if c.wf() && block_readable(gs) && has_form_row(rows) {
        match expand_rows(rows, c, Seq::empty(), true, 0) {
            Ok(ex) => Some(expanded_entries(ex, gs, 0)),
            Err(_) => None,
        }
    } else {
        None
    }
}

/// A block with its condition forms inlined, or as it was.
pub open spec fn block_inlined(b: Seq<EntryView>, c: ConditionFormCatalog) -> Seq<EntryView> {
    match block_expansion(b, c) {
        Some(out) => out,
        None => b,
    }
}

} // verus!

verus! {

proof fn lemma_origins(rows: Seq<Seq<u8>>, c: ConditionFormCatalog, path: Seq<u32>, i: int)
    requires
        0 <= i <= rows.len(),
        path_ok(c, path),
    ensures
        expand_rows(rows, c, path, true, i) matches Ok(ex) ==> forall|k: int|
            0 <= k < ex.len() ==> ((#[trigger] ex[k]).0 matches Some(o) ==> i <= o < rows.len()),
    decreases rows.len() - i,
{
    if i < rows.len() {
        lemma_origins(rows, c, path, i + 1);
        if let Ok(ex) = expand_rows(rows, c, path, true, i) {
            let a = expand_row(rows, c, path, true, i)->Ok_0;
            let b = expand_rows(rows, c, path, true, i + 1)->Ok_0;
            assert(ex == a + b);
            assert forall|k: int| 0 <= k < ex.len() implies ((#[trigger] ex[k]).0 matches Some(o) ==> i <= o < rows.len()) by {
                if k < a.len() {
                    assert(ex[k] == a[k]);
                    let row = rows[i];
                    if !(row.len() != 32 || raw_function_id(row) != Some(875u16)) {
                        if let Some(pos) = polarity(row) {
                            let target = le32(row, 12);
                            if let Some(form) = catalog_lookup(c, target) {
                                if let Ok(inner) = expand_rows(form.0, c, path.push(target), false, 0) {
                                    if let Ok(sp) = compose(
                                        expanded_bytes(inner),
                                        row_ored(row),
                                        pos,
                                        if i > 0 { Some(rows[i - 1]) } else { None },
                                        if i + 1 < rows.len() { Some(rows[i + 1]) } else { None },
                                    ) {
                                        assert(untied(sp)[k].0 is None);
                                    }
                                }
                            }
                        }
                    }
                } else {
                    assert(ex[k] == b[k - a.len()]);
                }
            }
        }
    }
}

/// The code and the parameter strings of each row of a block, and its raw
/// rows, when every row is a raw 32-byte condition.
fn block_parts(block: &[FieldEntry]) -> (r: Option<(Vec<Vec<u8>>, Vec<[u8; 4]>, Vec<Vec<FieldEntry>>)>)
    ensures
        match r {
            Some(p) => {
                let gs = groups(crate::model::entries_view(block@), 0);
                &&& block_readable(gs)
                &&& rows_view(p.0@) == block_rows(gs)
                &&& p.1@.len() == gs.len()
                &&& p.2@.len() == gs.len()
                &&& forall|k: int| 0 <= k < gs.len() ==> #[trigger] p.1@[k] == gs[k][0].sig
                &&& forall|k: int| 0 <= k < gs.len() ==> crate::model::entries_view(#[trigger] p.2@[k]@) == gs[k].subrange(
                    1,
                    gs[k].len() as int,
                )
            },
            None => !block_readable(groups(crate::model::entries_view(block@), 0)),
        },
{
    let ghost bv = crate::model::entries_view(block@);
    let mut rows: Vec<Vec<u8>> = Vec::new();
    let mut sigs: Vec<[u8; 4]> = Vec::new();
    let mut attachments: Vec<Vec<FieldEntry>> = Vec::new();
    let ghost mut built: Seq<Seq<EntryView>> = Seq::empty();
    let mut j: usize = 0;
    assert(groups(bv, 0) =~= built + groups(bv, 0));
    while j < block.len()
        invariant
            j <= block@.len(),
            bv == crate::model::entries_view(block@),
            bv.len() == block@.len(),
            groups(bv, 0) == built + groups(bv, j as int),
            block_readable(built),
            rows_view(rows@) == block_rows(built),
            rows@.len() == built.len(),
            sigs@.len() == built.len(),
            attachments@.len() == built.len(),
            forall|k: int| 0 <= k < built.len() ==> #[trigger] sigs@[k] == built[k][0].sig,
            forall|k: int| 0 <= k < built.len() ==> crate::model::entries_view(#[trigger] attachments@[k]@)
                == built[k].subrange(1, built[k].len() as int),
            forall|k: int| 0 <= k < built.len() ==> (#[trigger] built[k]).len() >= 1,
        decreases block.len() - j,
    {
        let head = &block[j];
        assert(bv[j as int] == head@);
        let raw = match &head.value {
            FieldValue::Bytes(b) => if b.len() == 32 {
                Some(crate::model::copy_bytes(b.as_slice()))
            } else {
                None
            },
            _ => None,
        };
        let mut n: usize = 0;
        while j + 1 + n < block.len() && condition_string_sig(block[j + 1 + n].sig.0)
            invariant
                j < block@.len(),
                j + 1 + n <= block@.len(),
                bv == crate::model::entries_view(block@),
                strings_len(bv, j + 1) == n + strings_len(bv, j + 1 + n),
            decreases block.len() - (j + 1 + n),
        {
            assert(bv[j + 1 + n] == block@[j + 1 + n]@);
            n = n + 1;
        }
        proof {
            if j + 1 + n < block@.len() {
                assert(bv[j + 1 + n] == block@[j + 1 + n as int]@);
            }
            lemma_strings_len_bound(bv, j + 1);
        }
        assert(strings_len(bv, j + 1) == n);
        let ghost g = bv.subrange(j as int, j + 1 + n);
        assert(groups(bv, j as int) == seq![g] + groups(bv, j + 1 + n));
        let raw = match raw {
            Some(r) => r,
            None => {
                proof {
                    assert(groups(bv, 0)[built.len() as int] == g);
                    assert(g[0] == bv[j as int]);
                }
                return None;
            },
        };
        let mut strings: Vec<FieldEntry> = Vec::new();
        let mut t: usize = 0;
        while t < n
            invariant
                t <= n,
                j + 1 + n <= block@.len(),
                block@.len() == block.len(),
                bv == crate::model::entries_view(block@),
                g == bv.subrange(j as int, j + 1 + n),
                crate::model::entries_view(strings@) == g.subrange(1, 1 + t),
                strings@.len() == t,
            decreases n - t,
        {
            let ghost before = strings@;
            strings.push(block[j + 1 + t].duplicate());
            assert(crate::model::entries_view(strings@) =~= g.subrange(1, 2 + t)) by {
                assert(g[1 + t] == bv[j + 1 + t]);
                assert(crate::model::entries_view(strings@)[t as int] == block@[j + 1 + t]@);
                assert forall|q: int| 0 <= q < t implies crate::model::entries_view(strings@)[q] == g.subrange(1, 2 + t)[q] by {
                    assert(strings@[q] == before[q]);
                    assert(crate::model::entries_view(before)[q] == g.subrange(1, 1 + t)[q]);
                }
            }
            t = t + 1;
        }
        let ghost old_built = built;
        let ghost old_rows = rows@;
        rows.push(raw);
        sigs.push(head.sig.0);
        attachments.push(strings);
        proof {
            built = built.push(g);
            assert(g.len() == n + 1);
            assert(g[0] == bv[j as int]);
            assert(built + groups(bv, j + 1 + n) =~= old_built + (seq![g] + groups(bv, j + 1 + n)));
            assert forall|k: int| 0 <= k < built.len() implies #[trigger] sigs@[k] == built[k][0].sig by {
                if k < old_built.len() {
                    assert(built[k] == old_built[k]);
                }
            }
            assert forall|k: int| 0 <= k < built.len() implies crate::model::entries_view(#[trigger] attachments@[k]@)
                == built[k].subrange(1, built[k].len() as int) by {
                if k < old_built.len() {
                    assert(built[k] == old_built[k]);
                }
            }
            assert(rows_view(rows@) =~= block_rows(built)) by {
                assert forall|k: int| 0 <= k < built.len() implies rows_view(rows@)[k] == block_rows(built)[k] by {
                    if k < old_built.len() {
                        assert(built[k] == old_built[k]);
                        assert(rows@[k] == old_rows[k]);
                        assert(rows_view(old_rows)[k] == block_rows(old_built)[k]);
                    }
                }
            }
        }
        j = j + 1 + n;
    }
    proof {
        assert(groups(bv, j as int) =~= Seq::<Seq<EntryView>>::empty());
        assert(built + Seq::<Seq<EntryView>>::empty() =~= built);
    }
    Some((rows, sigs, attachments))
}

} // verus!

verus! {

/// The expansion of a condition block, when it has one.
fn inline_block(block: &[FieldEntry], catalog: &ConditionFormCatalog) -> (r: Option<Vec<FieldEntry>>)
    requires
        catalog.wf(),
    ensures
        match r {
            Some(v) => block_expansion(crate::model::entries_view(block@), *catalog) == Some(
                crate::model::entries_view(v@),
            ),
            None => block_expansion(crate::model::entries_view(block@), *catalog) is None,
        },
{
    let ghost bv = crate::model::entries_view(block@);
    let ghost gs = groups(bv, 0);
    let (rows, sigs, attachments) = match block_parts(block) {
        Some(p) => p,
        None => return None,
    };
    let ghost rv = block_rows(gs);
    let mut k: usize = 0;
    let mut has_form = false;
    while k < rows.len()
        invariant
            k <= rows@.len(),
            rows_view(rows@) == rv,
            rv.len() == rows@.len(),
            has_form == exists|q: int| 0 <= q < k && raw_function_id(#[trigger] rv[q]) == Some(875u16),
        decreases rows.len() - k,
    {
        assert(rv[k as int] == rows@[k as int]@);
        if Fo76Fo4Hook::raw_condition_function_id(rows[k].as_slice()) == Some(875u16) {
            has_form = true;
        }
        k = k + 1;
    }
    if !has_form {
        return None;
    }
    let mut path: Vec<u32> = Vec::new();
    assert(path@.no_duplicates());
    let ex = match expand_condition_form_rows(rows.as_slice(), catalog, &mut path, true) {
        Ok(v) => v,
        Err(_) => return None,
    };
    assert(path@ =~= Seq::<u32>::empty());
    let ghost exv = expanded_view(ex@);
    proof {
        assert(rows_view(rows@) == rv);
        lemma_origins(rv, *catalog, Seq::empty(), 0);
    }
    let mut out: Vec<FieldEntry> = Vec::new();
    let mut k: usize = 0;
    assert(crate::model::entries_view(out@) + expanded_entries(exv, gs, 0) =~= expanded_entries(exv, gs, 0));
    while k < ex.len()
        invariant
            k <= ex@.len(),
            exv == expanded_view(ex@),
            exv.len() == ex@.len(),
            gs.len() == rows@.len(),
            rv.len() == rows@.len(),
            rv.len() > 0,
            sigs@.len() == gs.len(),
            attachments@.len() == gs.len(),
            forall|q: int| 0 <= q < gs.len() ==> #[trigger] sigs@[q] == gs[q][0].sig,
            forall|q: int| 0 <= q < gs.len() ==> crate::model::entries_view(#[trigger] attachments@[q]@)
                == gs[q].subrange(1, gs[q].len() as int),
            forall|q: int| 0 <= q < exv.len() ==> ((#[trigger] exv[q]).0 matches Some(o) ==> 0 <= o < rv.len()),
            crate::model::entries_view(out@) + expanded_entries(exv, gs, k as int) == expanded_entries(exv, gs, 0),
        decreases ex.len() - k,
    {
        let ghost before = crate::model::entries_view(out@);
        let x = &ex[k];
        assert(exv[k as int] == (match x.origin { Some(o) => Some(o as int), None => None::<int> }, x.bytes@));
        let sig = match x.origin {
            Some(o) => sigs[o],
            None => sigs[0],
        };
        out.push(FieldEntry { sig: crate::model::SubrecordSig(sig), value: FieldValue::Bytes(crate::model::copy_bytes(x.bytes.as_slice())) });
        let ghost head = EntryView { sig: sig, value: FieldView::Bytes(x.bytes@) };
        assert(crate::model::entries_view(out@) =~= before.push(head));
        let ghost mid = crate::model::entries_view(out@);
        match x.origin {
            Some(o) => {
                let strings = &attachments[o];
                let mut t: usize = 0;
                while t < strings.len()
                    invariant
                        t <= strings@.len(),
                        crate::model::entries_view(out@) == mid + crate::model::entries_view(strings@).subrange(0, t as int),
                    decreases strings.len() - t,
                {
                    let ghost b2 = crate::model::entries_view(out@);
                    out.push(strings[t].duplicate());
                    assert(crate::model::entries_view(out@) =~= mid + crate::model::entries_view(strings@).subrange(0, t + 1)) by {
                        assert(crate::model::entries_view(out@) =~= b2.push(strings@[t as int]@));
                    }
                    t = t + 1;
                }
                assert(crate::model::entries_view(strings@).subrange(0, strings@.len() as int) =~= crate::model::entries_view(strings@));
            },
            None => {},
        }
        proof {
            let tail = match exv[k as int].0 {
                Some(o) => gs[o].subrange(1, gs[o].len() as int),
                None => Seq::empty(),
            };
            assert(expanded_entries(exv, gs, k as int) == seq![head] + tail + expanded_entries(exv, gs, k + 1));
            assert(crate::model::entries_view(out@) =~= before + (seq![head] + tail));
            assert(crate::model::entries_view(out@) + expanded_entries(exv, gs, k + 1) =~= before + expanded_entries(exv, gs, k as int));
        }
        k = k + 1;
    }
    assert(expanded_entries(exv, gs, k as int) =~= Seq::<EntryView>::empty());
    assert(crate::model::entries_view(out@) =~= expanded_entries(exv, gs, 0));
    Some(out)
}

} // verus!

verus! {

/// Whether an entry belongs to a condition block: a condition or one of its
/// parameter strings.
pub open spec fn block_entry(e: EntryView) -> bool {
    is_condition_sig(e.sig) || is_condition_string_sig(e.sig)
}

/// The length of the run of block entries from `start` on.
pub open spec fn run_len(f: Seq<EntryView>, start: int) -> nat
    decreases f.len() - start,
{
    if 0 <= start < f.len() && block_entry(f[start]) {
        1 + run_len(f, start + 1)
    } else {
        0
    }
}

pub proof fn lemma_run_len_bound(f: Seq<EntryView>, start: int)
    ensures
        0 <= start <= f.len() ==> start + run_len(f, start) <= f.len(),
    decreases f.len() - start,
{
    if 0 <= start < f.len() && block_entry(f[start]) {
        lemma_run_len_bound(f, start + 1);
    }
}

/// The entries from `start` on with every condition block replaced by its
/// expansion where it has one. A block starts at a condition and runs over
/// the conditions and parameter strings that follow it.
pub open spec fn inline_from(f: Seq<EntryView>, c: ConditionFormCatalog, start: int) -> Seq<EntryView>
    decreases f.len() - start,
{
    if start < 0 || start >= f.len() {
        Seq::empty()
    } else if !is_condition_sig(f[start].sig) {
        seq![f[start]] + inline_from(f, c, start + 1)
    } else {
        let end = start + run_len(f, start);
        proof {
            lemma_run_len_bound(f, start);
        }
        block_inlined(f.subrange(start, end), c) + inline_from(f, c, end)
    }
}

/// Whether some block from `start` on has an expansion.
pub open spec fn inline_changed(f: Seq<EntryView>, c: ConditionFormCatalog, start: int) -> bool
    decreases f.len() - start,
{
    if start < 0 || start >= f.len() {
        false
    } else if !is_condition_sig(f[start].sig) {
        inline_changed(f, c, start + 1)
    } else {
        let end = start + run_len(f, start);
        proof {
            lemma_run_len_bound(f, start);
        }
        block_expansion(f.subrange(start, end), c) is Some || inline_changed(f, c, end)
    }
}

/// Whether a record has a raw condition dereferencing a condition form.
pub open spec fn has_form_condition(f: Seq<EntryView>) -> bool {
    exists|i: int| 0 <= i < f.len() && is_condition_sig(#[trigger] f[i].sig) && (f[i].value matches FieldView::Bytes(
        b,
    ) && raw_function_id(b) == Some(875u16))
}

/// A record with its condition forms inlined: every block with an
/// expansion replaced by it, and the condition count resynced when a block
/// changed and the record counts its conditions; a record without a
/// form-dereferencing condition as it was.
pub open spec fn forms_inlined(r: RecordView, c: ConditionFormCatalog) -> RecordView {
    if !has_form_condition(r.fields) {
        r
    } else {
        let f = inline_from(r.fields, c, 0);
        if inline_changed(r.fields, c, 0) && crate::fields::has_sig(f, code('C', 'I', 'T', 'C')) {
            RecordView { fields: crate::conditions::synced_condition_count(f), ..r }
        } else {
            RecordView { fields: f, ..r }
        }
    }
}

fn has_form_condition_exec(fields: &Vec<FieldEntry>) -> (r: bool)
    ensures
        r == has_form_condition(crate::model::entries_view(fields@)),
{
    let ghost f = crate::model::entries_view(fields@);
    let mut i: usize = 0;
    while i < fields.len()
        invariant
            i <= fields@.len(),
            f == crate::model::entries_view(fields@),
            forall|q: int| 0 <= q < i ==> !(is_condition_sig(#[trigger] f[q].sig) && (f[q].value matches FieldView::Bytes(
                b,
            ) && raw_function_id(b) == Some(875u16))),
        decreases fields.len() - i,
    {
        assert(f[i as int] == fields@[i as int]@);
        if condition_sig(fields[i].sig.0) {
            if let FieldValue::Bytes(b) = &fields[i].value {
                if Fo76Fo4Hook::raw_condition_function_id(b.as_slice()) == Some(875u16) {
                    assert(f[i as int].value == FieldView::Bytes(b@));
                    assert(is_condition_sig(f[i as int].sig));
                    return true;
                }
            }
        }
        i = i + 1;
    }
    false
}

impl Fo76Fo4Hook {
    /// Replace every FO76 condition-form dereference (function 875) whose
    /// block can be expanded exactly with the referenced forms' own
    /// conditions; refused blocks stay as they are for the
    /// incompatible-condition pass to drop.
    #[verifier::rlimit(40)]
    pub fn inline_fo76_condition_forms(record: &mut Record, catalog: &ConditionFormCatalog)
        requires
            catalog.wf(),
        ensures
            final(record)@ == forms_inlined(old(record)@, *catalog),
    {
        if !has_form_condition_exec(&record.fields) {
            return;
        }
        let ghost r0 = record@;
        let ghost f = r0.fields;
        let mut fields: Vec<FieldEntry> = Vec::new();
        core::mem::swap(&mut record.fields, &mut fields);
        assert(crate::model::entries_view(fields@) == f);
        let mut out: Vec<FieldEntry> = Vec::new();
        let mut index: usize = 0;
        let mut changed = false;
        assert(inline_from(f, *catalog, 0) =~= crate::model::entries_view(out@) + inline_from(f, *catalog, 0));
        while index < fields.len()
            invariant
                index <= fields@.len(),
                f == crate::model::entries_view(fields@),
                f.len() == fields@.len(),
                catalog.wf(),
                inline_from(f, *catalog, 0) == crate::model::entries_view(out@) + inline_from(f, *catalog, index as int),
                inline_changed(f, *catalog, 0) == (changed || inline_changed(f, *catalog, index as int)),
                record@.sig == r0.sig,
                record@.form_key == r0.form_key,
                record@.eid == r0.eid,
            decreases fields.len() - index,
        {
            let ghost before = crate::model::entries_view(out@);
            assert(f[index as int] == fields@[index as int]@);
            if !condition_sig(fields[index].sig.0) {
                out.push(fields[index].duplicate());
                assert(crate::model::entries_view(out@) =~= before.push(f[index as int]));
                assert(crate::model::entries_view(out@) + inline_from(f, *catalog, index + 1) =~= before + (seq![
                    f[index as int],
                ] + inline_from(f, *catalog, index + 1)));
                index = index + 1;
            } else {
                let mut end: usize = index;
                while end < fields.len() && (condition_sig(fields[end].sig.0) || condition_string_sig(fields[end].sig.0))
                    invariant
                        index <= end <= fields@.len(),
                        f == crate::model::entries_view(fields@),
                        run_len(f, index as int) == (end - index) + run_len(f, end as int),
                    decreases fields.len() - end,
                {
                    assert(f[end as int] == fields@[end as int]@);
                    end = end + 1;
                }
                proof {
                    if end < fields@.len() {
                        assert(f[end as int] == fields@[end as int]@);
                    }
                    assert(run_len(f, end as int) == 0);
                    lemma_run_len_bound(f, index as int);
                }
                let mut block: Vec<FieldEntry> = Vec::new();
                let mut t: usize = index;
                while t < end
                    invariant
                        index <= t <= end,
                        end <= fields@.len(),
                        f == crate::model::entries_view(fields@),
                        crate::model::entries_view(block@) == f.subrange(index as int, t as int),
                        block@.len() == t - index,
                    decreases end - t,
                {
                    let ghost b0 = block@;
                    block.push(fields[t].duplicate());
                    assert(crate::model::entries_view(block@) =~= f.subrange(index as int, t + 1)) by {
                        assert forall|q: int| 0 <= q < t + 1 - index implies #[trigger] crate::model::entries_view(block@)[q]
                            == f.subrange(index as int, t + 1)[q] by {
                            if q < t - index {
                                assert(block@[q] == b0[q]);
                                assert(crate::model::entries_view(b0)[q] == f.subrange(index as int, t as int)[q]);
                            } else {
                                assert(block@[q]@ == fields@[t as int]@);
                            }
                        }
                    }
                    t = t + 1;
                }
                let ghost bv = f.subrange(index as int, end as int);
                match inline_block(block.as_slice(), catalog) {
                    Some(v) => {
                        let mut v = v;
                        let ghost vv = crate::model::entries_view(v@);
                        out.append(&mut v);
                        assert(crate::model::entries_view(out@) =~= before + vv);
                        changed = true;
                    },
                    None => {
                        let ghost bb = crate::model::entries_view(block@);
                        out.append(&mut block);
                        assert(crate::model::entries_view(out@) =~= before + bb);
                    },
                }
                assert(crate::model::entries_view(out@) + inline_from(f, *catalog, end as int) =~= before + (
                block_inlined(bv, *catalog) + inline_from(f, *catalog, end as int)));
                index = end;
            }
        }
        assert(inline_from(f, *catalog, index as int) =~= Seq::<EntryView>::empty());
        record.fields = out;
        assert(record@.fields =~= inline_from(f, *catalog, 0));
        if changed && crate::fields::any_sig(&record.fields, crate::model::tag('C', 'I', 'T', 'C')) {
            record.sync_condition_count();
        }
    }
}

} // verus!

verus! {

/// The `CTDA`/`CTDT` rows of raw subrecords, in order.
pub open spec fn form_rows(subs: Seq<([u8; 4], Seq<u8>)>) -> Seq<Seq<u8>>
    decreases subs.len(),
{
    if subs.len() == 0 {
        Seq::empty()
    } else if is_condition_sig(subs.last().0) {
        form_rows(subs.drop_last()).push(subs.last().1)
    } else {
        form_rows(subs.drop_last())
    }
}

/// A condition form from the raw subrecords of a `CNDF` record: its
/// `CTDA`/`CTDT` rows in order, and whether it has `CIS1`/`CIS2` strings.
pub open spec fn form_from_subrecords(subs: Seq<([u8; 4], Seq<u8>)>) -> (Seq<Seq<u8>>, bool) {
    (form_rows(subs), exists|i: int| 0 <= i < subs.len() && is_condition_string_sig(#[trigger] subs[i].0))
}

/// The model of raw subrecords.
pub open spec fn subrecords_view(subs: Seq<([u8; 4], Vec<u8>)>) -> Seq<([u8; 4], Seq<u8>)> {
    Seq::new(subs.len(), |i: int| (subs[i].0, subs[i].1@))
}

/// The rows and the parameter-strings flag of a `CNDF` record's raw
/// subrecords, ready for `ConditionFormCatalog::insert`.
pub fn condition_form_from_subrecords(subrecords: &Vec<([u8; 4], Vec<u8>)>) -> (r: (Vec<Vec<u8>>, bool))
    ensures
        (rows_view(r.0@), r.1) == form_from_subrecords(subrecords_view(subrecords@)),
{
    let ghost sv = subrecords_view(subrecords@);
    let mut rows: Vec<Vec<u8>> = Vec::new();
    let mut strings = false;
    let mut i: usize = 0;
    while i < subrecords.len()
        invariant
            i <= subrecords@.len(),
            sv == subrecords_view(subrecords@),
            sv.len() == subrecords@.len(),
            rows_view(rows@) == form_rows(sv.subrange(0, i as int)),
            rows@.len() == form_rows(sv.subrange(0, i as int)).len(),
            strings == exists|q: int| 0 <= q < i && is_condition_string_sig(#[trigger] sv[q].0),
        decreases subrecords.len() - i,
    {
        let ghost pre = sv.subrange(0, i as int);
        let ghost ext = sv.subrange(0, i + 1);
        let ghost old_rows = rows@;
        assert(ext.drop_last() =~= pre);
        assert(ext.last() == sv[i as int]);
        assert(sv[i as int] == (subrecords@[i as int].0, subrecords@[i as int].1@));
        let sig = subrecords[i].0;
        if condition_string_sig(sig) {
            strings = true;
            assert(is_condition_string_sig(sv[i as int].0));
            assert(!is_condition_sig(sig)) by {
                assert(code('C', 'I', 'S', '1')[1] != code('C', 'T', 'D', 'A')[1]);
                assert(code('C', 'I', 'S', '2')[1] != code('C', 'T', 'D', 'T')[1]);
                assert(code('C', 'I', 'S', '1')[1] != code('C', 'T', 'D', 'T')[1]);
                assert(code('C', 'I', 'S', '2')[1] != code('C', 'T', 'D', 'A')[1]);
            }
            assert(form_rows(ext) == form_rows(pre));
        } else if condition_sig(sig) {
            rows.push(crate::model::copy_bytes(subrecords[i].1.as_slice()));
            assert(form_rows(ext) == form_rows(pre).push(sv[i as int].1));
            assert(rows_view(rows@) =~= rows_view(old_rows).push(sv[i as int].1));
        } else {
            assert(form_rows(ext) == form_rows(pre));
        }
        i = i + 1;
    }
    assert(sv.subrange(0, sv.len() as int) =~= sv);
    (rows, strings)
}

/// Complementing a condition's operator twice gives the condition back:
/// every operator `==`, `!=`, `>`, `>=`, `<`, `<=` has an exact complement,
/// so negation never approximates.
pub proof fn law_negation_exact(r: Seq<u8>)
    requires
        r.len() > 0,
        r[0] / 32 <= 5,
    ensures
        negated_row(r) is Some,
        negated_row(r)->0.len() == r.len(),
        negated_row(r)->0.subrange(1, r.len() as int) == r.subrange(1, r.len() as int),
        negated_row(r)->0[0] & 0x1fu8 == r[0] & 0x1fu8,
        complement(r[0] / 32) == Some(negated_row(r)->0[0] / 32),
        negated_row(negated_row(r)->0) == Some(r),
{
    let b: u8 = r[0];
    let op: u8 = (b / 32) as u8;
    let c: u8 = complement(op)->0;
    let b1: u8 = (b & 0x1fu8) | ((c * 32) as u8);
    assert(b1 / 32 == c && b1 & 0x1fu8 == b & 0x1fu8) by (bit_vector)
        requires
            c <= 5,
            b1 == (b & 0x1fu8) | ((c * 32) as u8),
    ;
    let b2: u8 = (b1 & 0x1fu8) | ((op * 32) as u8);
    assert(b2 == b) by (bit_vector)
        requires
            op == b / 32,
            op <= 5,
            b1 & 0x1fu8 == b & 0x1fu8,
            b2 == (b1 & 0x1fu8) | ((op * 32) as u8),
    ;
    let r1 = r.update(0, b1);
    assert(complement(c) == Some(op));
    assert(r1.update(0, b2) =~= r);
    assert(r1.subrange(1, r.len() as int) =~= r.subrange(1, r.len() as int));
}

/// A condition whose operator byte holds no comparison (6 or 7 in its top
/// three bits), or an empty row, has no negation.
pub proof fn law_negation_undefined(r: Seq<u8>)
    requires
        r.len() == 0 || r[0] / 32 > 5,
    ensures
        negated_row(r) is None,
{
}

/// Negating a form of two or more conditions joined by And gives, by De
/// Morgan, an Or of the negated conditions: each row keeps its bytes after
/// the first, its low flag bits with the Or flag set, and its operator
/// complemented. This holds when no row of the form is Or-ed, every
/// operator has a complement, and the slot either is Or-ed itself or sits
/// between rows that are not.
pub proof fn law_negated_conjunction(
    ex: Seq<Seq<u8>>,
    slot_ored: bool,
    prev: Option<Seq<u8>>,
    next: Option<Seq<u8>>,
)
    requires
        ex.len() >= 2,
        forall|k: int| 0 <= k < ex.len() ==> (#[trigger] ex[k]).len() > 0 && ex[k][0] & 1u8 == 0 && ex[k][0] / 32 <= 5,
        slot_ored || (!(prev matches Some(p) && row_ored(p)) && !(next matches Some(n) && row_ored(n))),
    ensures
        compose(ex, slot_ored, false, prev, next) matches Ok(out) && out.len() == ex.len() && forall|k: int|
            0 <= k < ex.len() ==> {
                &&& (#[trigger] out[k]).len() == ex[k].len()
                &&& out[k].subrange(1, ex[k].len() as int) == ex[k].subrange(1, ex[k].len() as int)
                &&& out[k][0] & 0x1fu8 == (ex[k][0] & 0x1fu8) | 1u8
                &&& complement(ex[k][0] / 32) == Some(out[k][0] / 32)
            },
{
    assert forall|k: int| 0 <= k < ex.len() implies !row_ored(#[trigger] ex[k]) by {}
    assert forall|k: int| 0 <= k < ex.len() implies #[trigger] negated_row(ex[k]) is Some by {
        law_negation_exact(ex[k]);
    }
    let out = Seq::new(ex.len(), |k: int| with_or_flag(negated_row(ex[k])->0, true));
    assert(compose(ex, slot_ored, false, prev, next) == Ok::<Seq<Seq<u8>>, InlineRefusal>(out));
    assert forall|k: int| 0 <= k < ex.len() implies {
        &&& (#[trigger] out[k]).len() == ex[k].len()
        &&& out[k].subrange(1, ex[k].len() as int) == ex[k].subrange(1, ex[k].len() as int)
        &&& out[k][0] & 0x1fu8 == (ex[k][0] & 0x1fu8) | 1u8
        &&& complement(ex[k][0] / 32) == Some(out[k][0] / 32)
    } by {
        let r = ex[k];
        law_negation_exact(r);
        let n = negated_row(r)->0;
        let b: u8 = r[0];
        let m: u8 = n[0];
        let o: u8 = m | 1u8;
        assert(out[k] == n.update(0, o));
        assert(o & 0x1fu8 == (b & 0x1fu8) | 1u8 && o / 32 == m / 32) by (bit_vector)
            requires
                m & 0x1fu8 == b & 0x1fu8,
                o == m | 1u8,
        ;
        assert(out[k].subrange(1, r.len() as int) =~= n.subrange(1, r.len() as int));
    }
}

} // verus!

verus! {

/// Whether an entry lies outside every condition block and is no condition
/// count: the entries inlining never touches.
pub open spec fn outside_conditions(e: EntryView) -> bool {
    !block_entry(e) && e.sig != code('C', 'I', 'T', 'C')
}

/// The entries of `s` outside every condition block, in order.
pub open spec fn outside_entries(s: Seq<EntryView>) -> Seq<EntryView> {
    s.filter(|e: EntryView| outside_conditions(e))
}

proof fn lemma_outside_add(a: Seq<EntryView>, b: Seq<EntryView>)
    ensures
        outside_entries(a + b) == outside_entries(a) + outside_entries(b),
{
    Seq::filter_distributes_over_add(a, b, |e: EntryView| outside_conditions(e));
}

proof fn lemma_block_outside_empty(s: Seq<EntryView>)
    requires
        forall|i: int| 0 <= i < s.len() ==> block_entry(#[trigger] s[i]),
    ensures
        outside_entries(s) == Seq::<EntryView>::empty(),
    decreases s.len(),
{
    reveal(Seq::filter);
    if s.len() > 0 {
        lemma_block_outside_empty(s.drop_last());
        assert(block_entry(s[s.len() - 1]));
    }
}

proof fn lemma_run_blocks(f: Seq<EntryView>, start: int)
    requires
        0 <= start <= f.len(),
    ensures
        forall|i: int| start <= i < start + run_len(f, start) ==> block_entry(#[trigger] f[i]),
    decreases f.len() - start,
{
    if start < f.len() && block_entry(f[start]) {
        lemma_run_blocks(f, start + 1);
    }
}

proof fn lemma_groups_blocks(b: Seq<EntryView>, j: int)
    requires
        0 <= j,
        forall|i: int| 0 <= i < b.len() ==> block_entry(#[trigger] b[i]),
    ensures
        forall|k: int| 0 <= k < groups(b, j).len() ==> (#[trigger] groups(b, j)[k]).len() >= 1 && forall|m: int|
            0 <= m < groups(b, j)[k].len() ==> block_entry(#[trigger] groups(b, j)[k][m]),
    decreases b.len() - j,
{
    if j < b.len() {
        let n = strings_len(b, j + 1);
        lemma_strings_len_bound(b, j + 1);
        lemma_groups_blocks(b, j + 1 + n);
        let g = groups(b, j);
        let rest = groups(b, j + 1 + n);
        assert(g == seq![b.subrange(j, j + 1 + n)] + rest);
        assert forall|k: int| 0 <= k < g.len() implies (#[trigger] g[k]).len() >= 1 && forall|m: int|
            0 <= m < g[k].len() ==> block_entry(#[trigger] g[k][m]) by {
            if k > 0 {
                assert(g[k] == rest[k - 1]);
            } else {
                assert forall|m: int| 0 <= m < g[k].len() implies block_entry(#[trigger] g[k][m]) by {
                    assert(g[k][m] == b[j + m]);
                }
            }
        }
    }
}

proof fn lemma_expanded_blocks(ex: Seq<(Option<int>, Seq<u8>)>, gs: Seq<Seq<EntryView>>, k: int)
    requires
        0 <= k,
        gs.len() > 0,
        forall|o: int| 0 <= o < gs.len() ==> (#[trigger] gs[o]).len() >= 1 && forall|m: int|
            0 <= m < gs[o].len() ==> block_entry(#[trigger] gs[o][m]),
        forall|q: int| 0 <= q < ex.len() ==> ((#[trigger] ex[q]).0 matches Some(o) ==> 0 <= o < gs.len()),
    ensures
        forall|m: int| 0 <= m < expanded_entries(ex, gs, k).len() ==> block_entry(
            #[trigger] expanded_entries(ex, gs, k)[m],
        ),
    decreases ex.len() - k,
{
    if k < ex.len() {
        lemma_expanded_blocks(ex, gs, k + 1);
        let x = ex[k];
        let o = match x.0 {
            Some(o) => o,
            None => 0,
        };
        assert(block_entry(gs[o][0]));
        let head = EntryView { sig: gs[o][0].sig, value: FieldView::Bytes(x.1) };
        let tail = match x.0 {
            Some(o) => gs[o].subrange(1, gs[o].len() as int),
            None => Seq::empty(),
        };
        let rest = expanded_entries(ex, gs, k + 1);
        let all = expanded_entries(ex, gs, k);
        assert(all == seq![head] + tail + rest);
        assert forall|m: int| 0 <= m < all.len() implies block_entry(#[trigger] all[m]) by {
            if m == 0 {
                assert(all[m] == head);
            } else if m < 1 + tail.len() {
                assert(all[m] == tail[m - 1]);
                assert(tail[m - 1] == gs[o][m]);
            } else {
                assert(all[m] == rest[m - 1 - tail.len()]);
            }
        }
    }
}

proof fn lemma_block_inlined_blocks(b: Seq<EntryView>, c: ConditionFormCatalog)
    requires
        b.len() > 0,
        forall|i: int| 0 <= i < b.len() ==> block_entry(#[trigger] b[i]),
    ensures
        forall|m: int| 0 <= m < block_inlined(b, c).len() ==> block_entry(#[trigger] block_inlined(b, c)[m]),
{
    let gs = groups(b, 0);
    let rows = block_rows(gs);
    if let Some(out) = block_expansion(b, c) {
        lemma_groups_blocks(b, 0);
        lemma_strings_len_bound(b, 1);
        assert(gs.len() > 0);
        assert(path_ok(c, Seq::<u32>::empty()));
        lemma_origins(rows, c, Seq::empty(), 0);
        let ex = expand_rows(rows, c, Seq::empty(), true, 0)->Ok_0;
        lemma_expanded_blocks(ex, gs, 0);
    }
}

proof fn lemma_inline_from_outside(f: Seq<EntryView>, c: ConditionFormCatalog, start: int)
    requires
        0 <= start <= f.len(),
    ensures
        outside_entries(inline_from(f, c, start)) == outside_entries(f.subrange(start, f.len() as int)),
    decreases f.len() - start,
{
    if start == f.len() {
        assert(f.subrange(start, f.len() as int) =~= Seq::<EntryView>::empty());
        assert(inline_from(f, c, start) =~= Seq::<EntryView>::empty());
    } else if !is_condition_sig(f[start].sig) {
        lemma_inline_from_outside(f, c, start + 1);
        lemma_outside_add(seq![f[start]], inline_from(f, c, start + 1));
        assert(f.subrange(start, f.len() as int) =~= seq![f[start]] + f.subrange(start + 1, f.len() as int));
        lemma_outside_add(seq![f[start]], f.subrange(start + 1, f.len() as int));
    } else {
        lemma_run_len_bound(f, start);
        let end = start + run_len(f, start);
        assert(run_len(f, start) >= 1);
        lemma_inline_from_outside(f, c, end);
        lemma_run_blocks(f, start);
        let sub = f.subrange(start, end);
        assert forall|i: int| 0 <= i < sub.len() implies block_entry(#[trigger] sub[i]) by {
            assert(sub[i] == f[start + i]);
        }
        lemma_block_inlined_blocks(sub, c);
        lemma_block_outside_empty(block_inlined(sub, c));
        lemma_block_outside_empty(sub);
        lemma_outside_add(block_inlined(sub, c), inline_from(f, c, end));
        assert(f.subrange(start, f.len() as int) =~= sub + f.subrange(end, f.len() as int));
        lemma_outside_add(sub, f.subrange(end, f.len() as int));
        assert(Seq::<EntryView>::empty() + outside_entries(inline_from(f, c, end)) =~= outside_entries(
            inline_from(f, c, end),
        ));
        assert(Seq::<EntryView>::empty() + outside_entries(f.subrange(end, f.len() as int)) =~= outside_entries(
            f.subrange(end, f.len() as int),
        ));
    }
}

proof fn lemma_count_sync_outside(s: Seq<EntryView>, n: u32)
    ensures
        outside_entries(s.map_values(|e: EntryView| crate::conditions::citc_with_count(e, n))) == outside_entries(s),
    decreases s.len(),
{
    reveal(Seq::filter);
    let m = s.map_values(|e: EntryView| crate::conditions::citc_with_count(e, n));
    if s.len() > 0 {
        lemma_count_sync_outside(s.drop_last(), n);
        assert(m.drop_last() =~= s.drop_last().map_values(|e: EntryView| crate::conditions::citc_with_count(e, n)));
        assert(m.last() == crate::conditions::citc_with_count(s.last(), n));
    }
}

/// Inlining condition forms leaves a record that dereferences no condition
/// form exactly as it was.
pub proof fn law_inlining_without_forms_unchanged(r: RecordView, c: ConditionFormCatalog)
    requires
        !has_form_condition(r.fields),
    ensures
        forms_inlined(r, c) == r,
{
}

/// Inlining condition forms keeps every entry outside the condition blocks
/// (and other than the condition count), with its value and in its order:
/// only conditions, their parameter strings and the count change.
pub proof fn law_inlining_keeps_other_fields(r: RecordView, c: ConditionFormCatalog)
    ensures
        outside_entries(forms_inlined(r, c).fields) == outside_entries(r.fields),
{
    if has_form_condition(r.fields) {
        let f = inline_from(r.fields, c, 0);
        lemma_inline_from_outside(r.fields, c, 0);
        assert(r.fields.subrange(0, r.fields.len() as int) =~= r.fields);
        if inline_changed(r.fields, c, 0) && crate::fields::has_sig(f, code('C', 'I', 'T', 'C')) {
            let n = crate::conditions::condition_count(f) as u32;
            lemma_count_sync_outside(f, n);
            assert(crate::conditions::synced_condition_count(f) == f.map_values(
                |e: EntryView| crate::conditions::citc_with_count(e, n),
            ));
        }
    }
}

} // verus!

verus! {

proof fn lemma_inline_from_unchanged(f: Seq<EntryView>, c: ConditionFormCatalog, start: int)
    requires
        0 <= start <= f.len(),
        !inline_changed(f, c, start),
    ensures
        inline_from(f, c, start) == f.subrange(start, f.len() as int),
    decreases f.len() - start,
{
    if start == f.len() {
        assert(inline_from(f, c, start) =~= f.subrange(start, f.len() as int));
    } else if !is_condition_sig(f[start].sig) {
        lemma_inline_from_unchanged(f, c, start + 1);
        assert(seq![f[start]] + f.subrange(start + 1, f.len() as int) =~= f.subrange(start, f.len() as int));
    } else {
        lemma_run_len_bound(f, start);
        let end = start + run_len(f, start);
        assert(run_len(f, start) >= 1);
        lemma_inline_from_unchanged(f, c, end);
        assert(f.subrange(start, end) + f.subrange(end, f.len() as int) =~= f.subrange(start, f.len() as int));
    }
}

/// A condition block that is not made only of raw 32-byte conditions, or
/// whose expansion is refused, stays as it is; and when no block of a
/// record expands, inlining leaves the whole record (its condition count
/// included) as it was.
pub proof fn law_refused_blocks_stay(r: RecordView, c: ConditionFormCatalog, b: Seq<EntryView>)
    ensures
        !block_readable(groups(b, 0)) ==> block_inlined(b, c) == b,
        block_expansion(b, c) is None ==> block_inlined(b, c) == b,
        !inline_changed(r.fields, c, 0) ==> forms_inlined(r, c) == r,
{
    if !inline_changed(r.fields, c, 0) && has_form_condition(r.fields) {
        lemma_inline_from_unchanged(r.fields, c, 0);
        assert(r.fields.subrange(0, r.fields.len() as int) =~= r.fields);
    }
}

} // verus!
