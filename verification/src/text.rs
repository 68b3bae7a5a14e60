//! Byte-level text helpers: ASCII case folding, substring search, and the
//! string interner that backs `Sym` handles.
use vstd::prelude::*;
use crate::model::Sym;
use vstd::string::StringSliceAdditionalSpecFns;

verus! {

/// The ASCII lower-case form of one byte.
pub open spec fn lower_byte(b: u8) -> u8 {
    if 65 <= b <= 90 { (b + 32) as u8 } else { b }
}

/// The ASCII lower-case form of a byte string.
pub open spec fn lower(s: Seq<u8>) -> Seq<u8> {
    Seq::new(s.len(), |i: int| lower_byte(s[i]))
}

/// Whether two byte strings are equal ignoring ASCII case.
pub open spec fn eq_ignore_case(a: Seq<u8>, b: Seq<u8>) -> bool {
    lower(a) == lower(b)
}

/// Whether `needle` occurs in `hay` at offset `at`.
pub open spec fn occurs_at(hay: Seq<u8>, needle: Seq<u8>, at: int) -> bool {
    0 <= at && at + needle.len() <= hay.len() && hay.subrange(at, at + needle.len()) == needle
}

/// Whether `needle` occurs anywhere in `hay`.
pub open spec fn contains(hay: Seq<u8>, needle: Seq<u8>) -> bool {
    exists|at: int| occurs_at(hay, needle, at)
}

/// Whether `s` begins with `prefix`.
pub open spec fn starts_with(s: Seq<u8>, prefix: Seq<u8>) -> bool {
    occurs_at(s, prefix, 0)
}

/// The UTF-8 bytes of a string.
pub fn lit(s: &str) -> (r: &[u8])
    ensures
        r@ == s.spec_bytes(),
{
    s.as_bytes()
}

/// The ASCII lower-case form of a byte string.
pub fn to_lower(s: &[u8]) -> (r: Vec<u8>)
    ensures
        r@ == lower(s@),
{
    let mut out: Vec<u8> = Vec::new();
    let mut i: usize = 0;
    while i < s.len()
        invariant
            i <= s.len(),
            out@.len() == i,
            forall|j: int| 0 <= j < i ==> out@[j] == lower_byte(s@[j]),
        decreases s.len() - i,
    {
        let b = s[i];
        let l = if 65 <= b && b <= 90 { b + 32 } else { b };
        out.push(l);
        i = i + 1;
    }
    assert(out@ =~= lower(s@));
    out
}

/// Whether two byte strings are equal.
pub fn bytes_eq(a: &[u8], b: &[u8]) -> (r: bool)
    ensures
        r == (a@ == b@),
{
    if a.len() != b.len() {
        return false;
    }
    let mut i: usize = 0;
    while i < a.len()
        invariant
            i <= a.len(),
            a.len() == b.len(),
            forall|j: int| 0 <= j < i ==> a@[j] == b@[j],
        decreases a.len() - i,
    {
        if a[i] != b[i] {
            return false;
        }
        i = i + 1;
    }
    assert(a@ =~= b@);
    true
}

/// Whether two byte strings are equal ignoring ASCII case.
pub fn bytes_eq_ignore_case(a: &[u8], b: &[u8]) -> (r: bool)
    ensures
        r == eq_ignore_case(a@, b@),
{
    let la = to_lower(a);
    let lb = to_lower(b);
    bytes_eq(la.as_slice(), lb.as_slice())
}

/// Whether `needle` occurs in `hay` at offset `at`.
pub fn bytes_occur_at(hay: &[u8], needle: &[u8], at: usize) -> (r: bool)
    ensures
        r == occurs_at(hay@, needle@, at as int),
{
    if at > hay.len() || needle.len() > hay.len() - at {
        return false;
    }
    let mut i: usize = 0;
    while i < needle.len()
        invariant
            i <= needle.len(),
            at + needle.len() <= hay.len(),
            forall|j: int| 0 <= j < i ==> hay@[at + j] == needle@[j],
        decreases needle.len() - i,
    {
        if hay[at + i] != needle[i] {
            assert(hay@.subrange(at as int, at + needle.len())[i as int] != needle@[i as int]);
            return false;
        }
        i = i + 1;
    }
    assert(hay@.subrange(at as int, at + needle.len()) =~= needle@);
    true
}

/// Whether `needle` occurs anywhere in `hay`.
pub fn bytes_contains(hay: &[u8], needle: &[u8]) -> (r: bool)
    ensures
        r == contains(hay@, needle@),
{
    if needle.len() > hay.len() {
        assert(forall|at: int| !occurs_at(hay@, needle@, at));
        return false;
    }
    let last = hay.len() - needle.len();
    let mut at: usize = 0;
    while at < last
        invariant
            last == hay.len() - needle.len(),
            at <= last,
            forall|k: int| 0 <= k < at ==> !occurs_at(hay@, needle@, k),
        decreases last - at,
    {
        if bytes_occur_at(hay, needle, at) {
            return true;
        }
        at = at + 1;
    }
    if bytes_occur_at(hay, needle, last) {
        return true;
    }
    assert forall|k: int| !occurs_at(hay@, needle@, k) by {
        if 0 <= k && k < at {
        }
    }
    false
}

/// Whether `s` begins with `prefix`.
pub fn bytes_starts_with(s: &[u8], prefix: &[u8]) -> (r: bool)
    ensures
        r == starts_with(s@, prefix@),
{
    bytes_occur_at(s, prefix, 0)
}

/// The length of `bytes` once every trailing NUL byte is removed.
pub open spec fn trimmed_nul_len(bytes: Seq<u8>) -> nat
    decreases bytes.len(),
{
    if bytes.len() > 0 && bytes.last() == 0 {
        trimmed_nul_len(bytes.drop_last())
    } else {
        bytes.len()
    }
}

/// `bytes` with every trailing NUL byte removed.
pub open spec fn trim_nul(bytes: Seq<u8>) -> Seq<u8> {
    bytes.take(trimmed_nul_len(bytes) as int)
}

proof fn lemma_trimmed_nul_len(bytes: Seq<u8>, n: int)
    requires
        0 <= n <= bytes.len(),
        n == 0 || bytes[n - 1] != 0,
        forall|k: int| n <= k < bytes.len() ==> bytes[k] == 0,
    ensures
        trimmed_nul_len(bytes) == n,
    decreases bytes.len(),
{
    if bytes.len() > 0 && bytes.last() == 0 {
        if n == bytes.len() {
            assert(bytes[n - 1] == 0);
        } else {
            assert forall|k: int| n <= k < bytes.drop_last().len() implies bytes.drop_last()[k]
                == 0 by {
                assert(bytes[k] == 0);
            }
            lemma_trimmed_nul_len(bytes.drop_last(), n);
        }
    }
}

/// The bytes with every trailing NUL byte removed.
pub fn trim_nul_suffix(bytes: &[u8]) -> (r: Vec<u8>)
    ensures
        r@ == trim_nul(bytes@),
{
    let mut n: usize = bytes.len();
    while n > 0 && bytes[n - 1] == 0
        invariant
            n <= bytes.len(),
            forall|k: int| n <= k < bytes.len() ==> bytes@[k] == 0,
        decreases n,
    {
        n = n - 1;
    }
    proof {
        lemma_trimmed_nul_len(bytes@, n as int);
    }
    let mut out: Vec<u8> = Vec::new();
    let mut i: usize = 0;
    while i < n
        invariant
            n <= bytes.len(),
            i <= n,
            out@ =~= bytes@.take(i as int),
        decreases n - i,
    {
        out.push(bytes[i]);
        i = i + 1;
    }
    out
}

/// Strings held under dense `Sym` handles; each string is held once.
pub struct StringInterner {
    strings: Vec<Vec<u8>>,
}

impl View for StringInterner {
    type V = Seq<Seq<u8>>;

    closed spec fn view(&self) -> Seq<Seq<u8>> {
        Seq::new(self.strings@.len(), |i: int| self.strings@[i]@)
    }
}

impl StringInterner {
    /// No string is held twice.
    pub open spec fn wf(&self) -> bool {
        &&& self@.len() <= u32::MAX
        &&& forall|i: int, j: int| 0 <= i < j < self@.len() ==> self@[i] != self@[j]
    }

    /// The string a handle stands for, if the interner holds it.
    pub open spec fn spec_resolve(&self, sym: Sym) -> Option<Seq<u8>> {
        if sym.0 < self@.len() {
            Some(self@[sym.0 as int])
        } else {
            None
        }
    }

    /// An interner holding no string.
    pub fn new() -> (r: StringInterner)
        ensures
            r@ == Seq::<Seq<u8>>::empty(),
            r.wf(),
    {
        let r = StringInterner { strings: Vec::new() };
        assert(r@ =~= Seq::<Seq<u8>>::empty());
        r
    }

    /// The string a handle stands for, if the interner holds it.
    pub fn resolve(&self, sym: Sym) -> (r: Option<&[u8]>)
        ensures
            r matches Some(s) ==> self.spec_resolve(sym) == Some(s@),
            r is None ==> self.spec_resolve(sym) is None,
    {
        let i = sym.0 as usize;
        if i < self.strings.len() {
            Some(self.strings[i].as_slice())
        } else {
            None
        }
    }

    /// The handle of `s`, adding `s` when it is not yet held. Handles that
    /// were valid before stay valid and keep their strings.
    pub fn intern(&mut self, s: &[u8]) -> (r: Sym)
        requires
            old(self).wf(),
            old(self)@.len() < u32::MAX,
        ensures
            final(self).wf(),
            final(self).spec_resolve(r) == Some(s@),
            old(self)@.contains(s@) ==> *final(self) == *old(self),
            !old(self)@.contains(s@) ==> final(self)@ == old(self)@.push(s@),
    {
        let mut i: usize = 0;
        while i < self.strings.len()
            invariant
                i <= self.strings@.len(),
                self.wf(),
                *self == *old(self),
                self@.len() == self.strings@.len(),
                forall|j: int| 0 <= j < self@.len() ==> self@[j] == self.strings@[j]@,
                forall|j: int| 0 <= j < i ==> self@[j] != s@,
            decreases self.strings@.len() - i,
        {
            if bytes_eq(self.strings[i].as_slice(), s) {
                return Sym(i as u32);
            }
            i = i + 1;
        }
        proof {
            if old(self)@.contains(s@) {
                let k = choose|k: int| 0 <= k < old(self)@.len() && old(self)@[k] == s@;
                assert(self@[k] != s@);
            }
        }
        let n = self.strings.len();
        self.strings.push(copy_vec(s));
        assert(self@ =~= old(self)@.push(s@));
        Sym(n as u32)
    }

    /// The handle of `s`, if the interner holds it; nothing is added.
    pub fn find(&self, s: &[u8]) -> (r: Option<Sym>)
        requires
            self.wf(),
        ensures
            r matches Some(h) ==> self.spec_resolve(h) == Some(s@),
            r is None <==> !self@.contains(s@),
    {
        let mut i: usize = 0;
        while i < self.strings.len()
            invariant
                i <= self.strings@.len(),
                self@.len() == self.strings@.len(),
                self.wf(),
                forall|j: int| 0 <= j < self@.len() ==> self@[j] == self.strings@[j]@,
                forall|j: int| 0 <= j < i ==> self@[j] != s@,
            decreases self.strings@.len() - i,
        {
            if bytes_eq(self.strings[i].as_slice(), s) {
                assert(self@[i as int] == s@);
                return Some(Sym(i as u32));
            }
            i = i + 1;
        }
        proof {
            if self@.contains(s@) {
                let k = choose|k: int| 0 <= k < self@.len() && self@[k] == s@;
                assert(self@[k] != s@);
            }
        }
        None
    }

    /// The handle of the UTF-8 bytes of `s`, adding them when not yet held.
    pub fn intern_str(&mut self, s: &str) -> (r: Sym)
        requires
            old(self).wf(),
            old(self)@.len() < u32::MAX,
        ensures
            final(self).wf(),
            final(self).spec_resolve(r) == Some(s.spec_bytes()),
            old(self)@.contains(s.spec_bytes()) ==> *final(self) == *old(self),
            !old(self)@.contains(s.spec_bytes()) ==> final(self)@ == old(self)@.push(s.spec_bytes()),
    {
        self.intern(s.as_bytes())
    }

    /// How many strings are held.
    pub fn len(&self) -> (r: usize)
        ensures
            r == self@.len(),
    {
        self.strings.len()
    }
}

/// The strings held after interning `s`: unchanged when `s` is held,
/// otherwise `s` appended.
pub open spec fn interned(held: Seq<Seq<u8>>, s: Seq<u8>) -> Seq<Seq<u8>> {
    if held.contains(s) {
        held
    } else {
        held.push(s)
    }
}

/// The strings held after interning each of `names` in turn.
pub open spec fn intern_all(held: Seq<Seq<u8>>, names: Seq<Seq<u8>>) -> Seq<Seq<u8>>
    decreases names.len(),
{
    if names.len() == 0 {
        held
    } else {
        interned(intern_all(held, names.drop_last()), names.last())
    }
}

/// The UTF-8 bytes of each string.
pub open spec fn strs_bytes(names: Seq<&str>) -> Seq<Seq<u8>> {
    Seq::new(names.len(), |i: int| names[i].spec_bytes())
}

/// Intern each of `names` in turn.
pub fn intern_each(interner: &mut StringInterner, names: &[&str])
    requires
        old(interner).wf(),
        old(interner)@.len() + names@.len() <= u32::MAX,
    ensures
        final(interner).wf(),
        final(interner)@ == intern_all(old(interner)@, strs_bytes(names@)),
        forall|k: int| 0 <= k < names@.len() ==> final(interner)@.contains(#[trigger] strs_bytes(names@)[k]),
        (forall|k: int| 0 <= k < names@.len() ==> old(interner)@.contains(#[trigger] strs_bytes(names@)[k])) ==> *final(interner) == *old(interner),
{
    let ghost start = interner@;
    let ghost all = strs_bytes(names@);
    let mut i: usize = 0;
    while i < names.len()
        invariant
            i <= names@.len(),
            all == strs_bytes(names@),
            interner.wf(),
            interner@ == intern_all(start, all.take(i as int)),
            interner@.len() <= start.len() + i,
            start.len() + names@.len() <= u32::MAX,
            forall|k: int| 0 <= k < i ==> interner@.contains(#[trigger] all[k]),
            start == old(interner)@,
            (forall|k: int| 0 <= k < names@.len() ==> start.contains(#[trigger] all[k])) ==> *interner == *old(interner),
        decreases names@.len() - i,
    {
        let ghost before = interner@;
        proof {
            if forall|k: int| 0 <= k < names@.len() ==> start.contains(#[trigger] all[k]) {
                assert(start.contains(all[i as int]));
                assert(all[i as int] == names@[i as int].spec_bytes());
            }
        }
        let h = interner.intern_str(names[i]);
        proof {
            assert(all.take(i + 1).drop_last() =~= all.take(i as int));
            assert(all.take(i + 1).last() == all[i as int]);
            assert forall|k: int| 0 <= k < i + 1 implies interner@.contains(#[trigger] all[k]) by {
                if k < i {
                    let w = choose|w: int| 0 <= w < before.len() && before[w] == all[k];
                    assert(interner@[w] == all[k]);
                } else {
                    assert(interner@[h.0 as int] == all[k]);
                }
            }
        }
        i = i + 1;
    }
    assert(all.take(names@.len() as int) =~= all);
}

/// The handle under which `held` keeps `s`.
pub open spec fn handle_of(held: Seq<Seq<u8>>, s: Seq<u8>) -> Sym {
    Sym((choose|i: int| 0 <= i < held.len() && held[i] == s) as u32)
}

/// In an interner that holds no string twice, the handle that resolves to
/// `s` is the handle of `s`.
pub proof fn lemma_handle_of(interner: StringInterner, sym: Sym, s: Seq<u8>)
    requires
        interner.wf(),
        interner.spec_resolve(sym) == Some(s),
    ensures
        handle_of(interner@, s) == sym,
{
    let held = interner@;
    assert(held[sym.0 as int] == s);
    let i = choose|i: int| 0 <= i < held.len() && held[i] == s;
    if i != sym.0 as int {
        if i < sym.0 as int {
            assert(held[i] != held[sym.0 as int]);
        } else {
            assert(held[sym.0 as int] != held[i]);
        }
    }
}

/// The handle of a name the interner already holds.
pub fn name_handle(interner: &StringInterner, name: &str) -> (r: Sym)
    requires
        interner.wf(),
        interner@.contains(name.spec_bytes()),
    ensures
        r == handle_of(interner@, name.spec_bytes()),
{
    match interner.find(lit(name)) {
        Some(h) => {
            proof {
                lemma_handle_of(*interner, h, name.spec_bytes());
            }
            h
        },
        None => Sym(0),
    }
}

fn copy_vec(s: &[u8]) -> (r: Vec<u8>)
    ensures
        r@ == s@,
{
    crate::model::copy_bytes(s)
}

} // verus!

verus! {

/// Whether `bytes` is well-formed UTF-8. Calls `std::str::from_utf8`, which
/// its documentation says succeeds exactly on well-formed UTF-8; the
/// contract states that as vstd's `valid_utf8`.
#[verifier::external_body]
pub(crate) fn utf8_valid(bytes: &[u8]) -> (r: bool)
    ensures
        r == vstd::utf8::valid_utf8(bytes@),
{
    std::str::from_utf8(bytes).is_ok()
}

/// The bytes before the first NUL byte.
pub open spec fn until_nul(b: Seq<u8>) -> Seq<u8>
    decreases b.len(),
{
    if b.len() == 0 || b[0] == 0 {
        Seq::empty()
    } else {
        seq![b[0]] + until_nul(b.drop_first())
    }
}

proof fn lemma_until_nul(b: Seq<u8>, i: int)
    requires
        0 <= i <= b.len(),
        forall|j: int| 0 <= j < i ==> b[j] != 0,
        i < b.len() ==> b[i] == 0,
    ensures
        until_nul(b) == b.take(i),
    decreases b.len(),
{
    if b.len() > 0 && i > 0 {
        let rest = b.drop_first();
        assert forall|j: int| 0 <= j < i - 1 implies rest[j] != 0 by {
            assert(rest[j] == b[j + 1]);
        }
        lemma_until_nul(rest, i - 1);
        assert(seq![b[0]] + rest.take(i - 1) =~= b.take(i));
    } else if b.len() > 0 {
        assert(b.take(0) =~= Seq::<u8>::empty());
    } else {
        assert(b.take(i) =~= Seq::<u8>::empty());
    }
}

/// The bytes before the first NUL byte.
pub fn bytes_until_nul(b: &[u8]) -> (r: Vec<u8>)
    ensures
        r@ == until_nul(b@),
{
    let mut i: usize = 0;
    while i < b.len() && b[i] != 0
        invariant
            i <= b.len(),
            forall|j: int| 0 <= j < i ==> b@[j] != 0,
        decreases b.len() - i,
    {
        i = i + 1;
    }
    proof {
        lemma_until_nul(b@, i as int);
    }
    let mut out: Vec<u8> = Vec::new();
    let mut k: usize = 0;
    while k < i
        invariant
            i <= b.len(),
            k <= i,
            out@ =~= b@.take(k as int),
        decreases i - k,
    {
        out.push(b[k]);
        k = k + 1;
    }
    out
}

} // verus!

verus! {

/// Interning names that are all held already changes nothing.
pub proof fn lemma_intern_all_held(held: Seq<Seq<u8>>, names: Seq<Seq<u8>>)
    requires
        forall|k: int| 0 <= k < names.len() ==> held.contains(#[trigger] names[k]),
    ensures
        intern_all(held, names) == held,
    decreases names.len(),
{
    if names.len() > 0 {
        let rest = names.drop_last();
        assert forall|k: int| 0 <= k < rest.len() implies held.contains(#[trigger] rest[k]) by {
            assert(rest[k] == names[k]);
        }
        lemma_intern_all_held(held, rest);
        assert(held.contains(names[names.len() - 1]));
    }
}

/// Interning names adds at most one string per name.
pub proof fn lemma_intern_all_len(held: Seq<Seq<u8>>, names: Seq<Seq<u8>>)
    ensures
        intern_all(held, names).len() <= held.len() + names.len(),
    decreases names.len(),
{
    if names.len() > 0 {
        lemma_intern_all_len(held, names.drop_last());
    }
}

} // verus!
