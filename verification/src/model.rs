//! The record model the hooks operate on: four-character codes, interned
//! symbols, form keys, decoded field values, and records.
use vstd::prelude::*;

verus! {

/// The four-byte code of a record type (`ARMA`, `QUST`, ...).
#[derive(Clone, Copy, Debug, PartialEq, Eq)]
pub struct SigCode(pub [u8; 4]);

/// The four-byte code of a subrecord (`EDID`, `DATA`, ...).
#[derive(Clone, Copy, Debug, PartialEq, Eq)]
pub struct SubrecordSig(pub [u8; 4]);

/// A handle to a string held by a `StringInterner`.
#[derive(Clone, Copy, Debug, PartialEq, Eq, Structural)]
pub struct Sym(pub u32);

/// A plugin-qualified form reference: the local object id and the plugin name.
#[derive(Clone, Copy, Debug, PartialEq, Eq, Structural)]
pub struct FormKey {
    pub local: u32,
    pub plugin: Sym,
}

/// A decoded subrecord value.
///
/// `Float` carries the IEEE-754 single-precision bit pattern of the value.
#[derive(Debug, PartialEq)]
pub enum FieldValue {
    Null,
    Uint(u64),
    Int(i64),
    Float(u32),
    Bytes(Vec<u8>),
    String(Sym),
    FormKey(FormKey),
    List(Vec<FieldValue>),
    Struct(Vec<(Sym, FieldValue)>),
}

/// One subrecord of a record: its code and its decoded value.
#[derive(Debug, PartialEq)]
pub struct FieldEntry {
    pub sig: SubrecordSig,
    pub value: FieldValue,
}

/// A record: its type code, its own form key, an optional editor id, and
/// its subrecords in file order.
#[derive(Debug, PartialEq)]
pub struct Record {
    pub sig: SigCode,
    pub form_key: FormKey,
    pub eid: Option<Sym>,
    pub fields: Vec<FieldEntry>,
}

/// The four-byte code spelled by four ASCII characters.
pub open spec fn code(a: char, b: char, c: char, d: char) -> [u8; 4] {
    [a as u8, b as u8, c as u8, d as u8]
}

/// Whether two four-byte codes are the same.
pub fn same_code(x: [u8; 4], y: [u8; 4]) -> (r: bool)
    ensures
        r == (x == y),
{
    let r = x[0] == y[0] && x[1] == y[1] && x[2] == y[2] && x[3] == y[3];
    proof {
        if r {
            assert(x =~= y);
        }
    }
    r
}

/// Whether `s` is one of the codes in `list`.
pub fn code_in(s: [u8; 4], list: &[[u8; 4]]) -> (r: bool)
    ensures
        r == list@.contains(s),
{
    let mut i: usize = 0;
    while i < list.len()
        invariant
            i <= list@.len(),
            forall|j: int| 0 <= j < i ==> list@[j] != s,
        decreases list@.len() - i,
    {
        if same_code(list[i], s) {
            assert(list@[i as int] == s);
            return true;
        }
        i = i + 1;
    }
    false
}

/// The four-byte code spelled by four characters.
pub fn tag(a: char, b: char, c: char, d: char) -> (r: [u8; 4])
    ensures
        r == code(a, b, c, d),
{
    let r = [a as u8, b as u8, c as u8, d as u8];
    assert(r =~= code(a, b, c, d));
    r
}

/// Whether `s` is the code spelled by the four characters.
pub fn sig_is(s: [u8; 4], a: char, b: char, c: char, d: char) -> (r: bool)
    ensures
        r == (s == code(a, b, c, d)),
{
    same_code(s, tag(a, b, c, d))
}

/// The mathematical model of a field value: byte strings and lists become
/// sequences.
pub enum FieldView {
    Null,
    Uint(u64),
    Int(i64),
    Float(u32),
    Bytes(Seq<u8>),
    String(Sym),
    FormKey(FormKey),
    List(Seq<FieldView>),
    Struct(Seq<(Sym, FieldView)>),
}

/// The mathematical model of a subrecord.
pub struct EntryView {
    pub sig: [u8; 4],
    pub value: FieldView,
}

/// The mathematical model of a record.
pub struct RecordView {
    pub sig: [u8; 4],
    pub form_key: FormKey,
    pub eid: Option<Sym>,
    pub fields: Seq<EntryView>,
}

/// The model of a value.
pub open spec fn value_view(v: FieldValue) -> FieldView
    decreases v,
{
    match v {
        FieldValue::Null => FieldView::Null,
        FieldValue::Uint(n) => FieldView::Uint(n),
        FieldValue::Int(n) => FieldView::Int(n),
        FieldValue::Float(bits) => FieldView::Float(bits),
        FieldValue::Bytes(bytes) => FieldView::Bytes(bytes@),
        FieldValue::String(sym) => FieldView::String(sym),
        FieldValue::FormKey(fk) => FieldView::FormKey(fk),
        FieldValue::List(items) => FieldView::List(items_view(items@)),
        FieldValue::Struct(fields) => FieldView::Struct(members_view(fields@)),
    }
}

/// The models of a list of values.
pub open spec fn items_view(s: Seq<FieldValue>) -> Seq<FieldView>
    decreases s,
{
    if s.len() == 0 {
        Seq::empty()
    } else {
        seq![value_view(s[0])] + items_view(s.subrange(1, s.len() as int))
    }
}

/// The models of a list of named values.
pub open spec fn members_view(s: Seq<(Sym, FieldValue)>) -> Seq<(Sym, FieldView)>
    decreases s,
{
    if s.len() == 0 {
        Seq::empty()
    } else {
        seq![(s[0].0, value_view(s[0].1))] + members_view(s.subrange(1, s.len() as int))
    }
}

impl View for FieldValue {
    type V = FieldView;

    open spec fn view(&self) -> FieldView {
        value_view(*self)
    }
}

impl View for FieldEntry {
    type V = EntryView;

    open spec fn view(&self) -> EntryView {
        EntryView { sig: self.sig.0, value: self.value@ }
    }
}

/// The models of a sequence of entries.
pub open spec fn entries_view(entries: Seq<FieldEntry>) -> Seq<EntryView> {
    Seq::new(entries.len(), |i: int| entries[i]@)
}

impl View for Record {
    type V = RecordView;

    open spec fn view(&self) -> RecordView {
        RecordView {
            sig: self.sig.0,
            form_key: self.form_key,
            eid: self.eid,
            fields: entries_view(self.fields@),
        }
    }
}

/// The models of a list of values.
pub open spec fn values_view(items: Seq<FieldValue>) -> Seq<FieldView> {
    Seq::new(items.len(), |i: int| items[i]@)
}

/// The models of a list of named values.
pub open spec fn named_view(fields: Seq<(Sym, FieldValue)>) -> Seq<(Sym, FieldView)> {
    Seq::new(fields.len(), |i: int| (fields[i].0, fields[i].1@))
}

/// The recursive models of a list agree with the item-wise models.
pub proof fn lemma_items_view(s: Seq<FieldValue>)
    ensures
        items_view(s) == values_view(s),
    decreases s.len(),
{
    if s.len() > 0 {
        let t = s.subrange(1, s.len() as int);
        lemma_items_view(t);
        assert forall|i: int| 0 < i < s.len() implies #[trigger] t[i - 1] == s[i] by {}
        assert(items_view(s) =~= values_view(s));
    } else {
        assert(items_view(s) =~= values_view(s));
    }
}

/// The recursive models of named values agree with the member-wise models.
pub proof fn lemma_members_view(s: Seq<(Sym, FieldValue)>)
    ensures
        members_view(s) == named_view(s),
    decreases s.len(),
{
    if s.len() > 0 {
        let t = s.subrange(1, s.len() as int);
        lemma_members_view(t);
        assert forall|i: int| 0 < i < s.len() implies #[trigger] t[i - 1] == s[i] by {}
        assert(members_view(s) =~= named_view(s));
    } else {
        assert(members_view(s) =~= named_view(s));
    }
}

/// The model of a struct value is the models of its members.
pub proof fn lemma_struct_view(v: FieldValue)
    requires
        v is Struct,
    ensures
        v@ == FieldView::Struct(named_view(v->Struct_0@)),
        named_view(v->Struct_0@).len() == v->Struct_0@.len(),
{
    lemma_members_view(v->Struct_0@);
}

/// The model of a list value is the models of its items.
pub proof fn lemma_list_view(v: FieldValue)
    requires
        v is List,
    ensures
        v@ == FieldView::List(values_view(v->List_0@)),
        values_view(v->List_0@).len() == v->List_0@.len(),
{
    lemma_items_view(v->List_0@);
}

impl FieldValue {
    /// A copy of the value with the same model.
    pub fn duplicate(&self) -> (r: FieldValue)
        ensures
            r@ == self@,
        decreases self,
    {
        match self {
            FieldValue::Null => FieldValue::Null,
            FieldValue::Uint(n) => FieldValue::Uint(*n),
            FieldValue::Int(n) => FieldValue::Int(*n),
            FieldValue::Float(bits) => FieldValue::Float(*bits),
            FieldValue::Bytes(bytes) => FieldValue::Bytes(copy_bytes(bytes.as_slice())),
            FieldValue::String(sym) => FieldValue::String(*sym),
            FieldValue::FormKey(fk) => FieldValue::FormKey(*fk),
            FieldValue::List(items) => {
                let mut out: Vec<FieldValue> = Vec::new();
                let mut i: usize = 0;
                while i < items.len()
                    invariant
                        i <= items.len(),
                        out@.len() == i,
                        *self is List,
                        self->List_0 == *items,
                        forall|j: int| 0 <= j < i ==> out@[j]@ == items@[j]@,
                    decreases items.len() - i,
                {
                    proof {
                        let ghost all = self->List_0;
                        assert(decreases_to!(all => all@));
                        assert(decreases_to!(all@ => all@[i as int]));
                    }
                    out.push(items[i].duplicate());
                    i = i + 1;
                }
                proof {
                    lemma_items_view(out@);
                    lemma_items_view(items@);
                }
                assert(values_view(out@) =~= values_view(items@));
                FieldValue::List(out)
            },
            FieldValue::Struct(fields) => {
                let mut out: Vec<(Sym, FieldValue)> = Vec::new();
                let mut i: usize = 0;
                while i < fields.len()
                    invariant
                        i <= fields.len(),
                        out@.len() == i,
                        *self is Struct,
                        self->Struct_0 == *fields,
                        forall|j: int|
                            0 <= j < i ==> out@[j].0 == fields@[j].0 && out@[j].1@ == fields@[j].1@,
                    decreases fields.len() - i,
                {
                    proof {
                        let ghost all = self->Struct_0;
                        assert(decreases_to!(all => all@));
                        assert(decreases_to!(all@ => all@[i as int]));
                        assert(decreases_to!(all@[i as int] => all@[i as int].1));
                    }
                    let name = fields[i].0;
                    let value = fields[i].1.duplicate();
                    out.push((name, value));
                    i = i + 1;
                }
                proof {
                    lemma_members_view(out@);
                    lemma_members_view(fields@);
                }
                assert(named_view(out@) =~= named_view(fields@));
                FieldValue::Struct(out)
            },
        }
    }
}

impl FieldEntry {
    /// A copy of the entry with the same model.
    pub fn duplicate(&self) -> (r: FieldEntry)
        ensures
            r@ == self@,
    {
        FieldEntry { sig: self.sig, value: self.value.duplicate() }
    }
}

/// A fresh vector holding the given bytes.
pub fn copy_bytes(bytes: &[u8]) -> (r: Vec<u8>)
    ensures
        r@ == bytes@,
{
    let mut out: Vec<u8> = Vec::new();
    let mut i: usize = 0;
    while i < bytes.len()
        invariant
            i <= bytes.len(),
            out@ =~= bytes@.take(i as int),
        decreases bytes.len() - i,
    {
        out.push(bytes[i]);
        i = i + 1;
    }
    assert(bytes@.take(bytes.len() as int) =~= bytes@);
    out
}

/// A byte-string field value holding the given bytes.
pub fn bytes_value(bytes: &[u8]) -> (r: FieldValue)
    ensures
        r@ == FieldView::Bytes(bytes@),
{
    FieldValue::Bytes(copy_bytes(bytes))
}

} // verus!
