//! The field store and the error type.

use vstd::prelude::*;

verus! {

/// The mathematical model of a field store: its entries, in the order in
/// which their keys were first added.
pub type FieldSeq = Seq<(Seq<char>, Seq<char>)>;

/// Whether some entry of `s` has the key `key`.
pub open spec fn has_key(s: FieldSeq, key: Seq<char>) -> bool {
    exists|i: int| 0 <= i < s.len() && (#[trigger] s[i]).0 == key
}

/// The position of an entry with the key `key` (the only one, where the keys are distinct).
pub open spec fn key_index(s: FieldSeq, key: Seq<char>) -> int {
    choose|i: int| 0 <= i < s.len() && (#[trigger] s[i]).0 == key
}

/// No key occurs twice.
pub open spec fn distinct_keys(s: FieldSeq) -> bool {
    forall|i: int, j: int| 0 <= i < j < s.len() ==> (#[trigger] s[i]).0 != (#[trigger] s[j]).0
}

/// The value stored under `key`, if any.
pub open spec fn lookup(s: FieldSeq, key: Seq<char>) -> Option<Seq<char>> {
    if has_key(s, key) {
        Some(s[key_index(s, key)].1)
    } else {
        None
    }
}

/// Two values of one key, joined by a single space, the older first.
pub open spec fn joined_values(older: Seq<char>, newer: Seq<char>) -> Seq<char> {
    older + seq![' '] + newer
}

/// The store after `key = value` is added: a new entry at the end where the
/// key is absent, the joined value in place where it is present.
pub open spec fn spec_add(s: FieldSeq, key: Seq<char>, value: Seq<char>) -> FieldSeq {
    if has_key(s, key) {
        let i = key_index(s, key);
        s.update(i, (key, joined_values(s[i].1, value)))
    } else {
        s.push((key, value))
    }
}

/// Adding a field keeps the keys distinct.
pub proof fn lemma_add_keeps_distinct(s: FieldSeq, key: Seq<char>, value: Seq<char>)
    requires
        distinct_keys(s),
    ensures
        distinct_keys(spec_add(s, key, value)),
{
    let t = spec_add(s, key, value);
    if has_key(s, key) {
        let k = key_index(s, key);
        assert forall|i: int, j: int| 0 <= i < j < t.len() implies (#[trigger] t[i]).0 != (
        #[trigger] t[j]).0 by {
            assert(t[i].0 == s[i].0);
            assert(t[j].0 == s[j].0);
        }
    } else {
        assert forall|i: int, j: int| 0 <= i < j < t.len() implies (#[trigger] t[i]).0 != (
        #[trigger] t[j]).0 by {
            if j < s.len() {
                assert(t[i] == s[i]);
                assert(t[j] == s[j]);
            } else {
                assert(t[i] == s[i]);
            }
        }
    }
}

/// A field that is added to a store without its key is found with its own
/// value; one added to a store with its key is found with the older value,
/// a space and the new one. Other keys keep what they had.
pub proof fn lemma_add_lookup(s: FieldSeq, key: Seq<char>, value: Seq<char>, other: Seq<char>)
    requires
        distinct_keys(s),
    ensures
        lookup(spec_add(s, key, value), key) == Some(
            match lookup(s, key) {
                Some(older) => joined_values(older, value),
                None => value,
            },
        ),
        other != key ==> lookup(spec_add(s, key, value), other) == lookup(s, other),
        spec_add(s, key, value).len() == s.len() + (if has_key(s, key) { 0int } else { 1int }),
{
    let t = spec_add(s, key, value);
    lemma_add_keeps_distinct(s, key, value);
    if has_key(s, key) {
        let k = key_index(s, key);
        assert(t[k].0 == key);
        assert(has_key(t, key));
        let k2 = key_index(t, key);
        if k2 != k {
            assert(t[k2].0 == t[k].0);
        }
    } else {
        let k = s.len() as int;
        assert(t[k].0 == key);
        assert(has_key(t, key));
        let k2 = key_index(t, key);
        if k2 != k {
            assert(t[k2].0 == t[k].0);
        }
    }
    if other != key {
        if has_key(s, other) {
            let m = key_index(s, other);
            assert(t[m] == s[m]);
            assert(has_key(t, other));
            let m2 = key_index(t, other);
            if m2 != m {
                assert(t[m2].0 == t[m].0);
            }
        } else {
            if has_key(t, other) {
                let m2 = key_index(t, other);
                if m2 < s.len() {
                    assert(s[m2].0 == t[m2].0);
                }
            }
        }
    }
}

/// Nothing was removed or overwritten between `before` and `after`: every
/// field is still at its place, under its key, and its value starts with
/// the value that it had.
pub open spec fn keeps_fields(before: FieldSeq, after: FieldSeq) -> bool {
    before.len() <= after.len() && forall|i: int|
        0 <= i < before.len() ==> (#[trigger] after[i]).0 == before[i].0 && before[i].1.is_prefix_of(after[i].1)
}

/// Adding a field removes and overwrites nothing.
pub proof fn lemma_add_keeps_fields(s: FieldSeq, key: Seq<char>, value: Seq<char>)
    ensures
        keeps_fields(s, spec_add(s, key, value)),
{
    let t = spec_add(s, key, value);
    assert forall|i: int| 0 <= i < s.len() implies (#[trigger] t[i]).0 == s[i].0 && s[i].1.is_prefix_of(
        t[i].1,
    ) by {
        if has_key(s, key) && i == key_index(s, key) {
            assert(t[i].1 == joined_values(s[i].1, value));
            assert(t[i].1.subrange(0, s[i].1.len() as int) =~= s[i].1);
        } else {
            assert(t[i] == s[i]);
            assert(t[i].1.subrange(0, s[i].1.len() as int) =~= s[i].1);
        }
    }
}

/// What holds from a first store to a second and from the second to a third
/// holds from the first to the third.
pub proof fn lemma_keeps_fields_chain(a: FieldSeq, b: FieldSeq, c: FieldSeq)
    requires
        keeps_fields(a, b),
        keeps_fields(b, c),
    ensures
        keeps_fields(a, c),
{
    assert forall|i: int| 0 <= i < a.len() implies (#[trigger] c[i]).0 == a[i].0 && a[i].1.is_prefix_of(
        c[i].1,
    ) by {
        assert(b[i].0 == a[i].0);
        assert(c[i].0 == b[i].0);
        assert(a[i].1 =~= b[i].1.subrange(0, a[i].1.len() as int));
        assert(b[i].1 =~= c[i].1.subrange(0, b[i].1.len() as int));
        assert(c[i].1.subrange(0, a[i].1.len() as int) =~= a[i].1);
    }
}

/// A store keeps its own fields.
pub proof fn lemma_keeps_fields_same(a: FieldSeq)
    ensures
        keeps_fields(a, a),
{
    assert forall|i: int| 0 <= i < a.len() implies (#[trigger] a[i]).0 == a[i].0 && a[i].1.is_prefix_of(
        a[i].1,
    ) by {
        assert(a[i].1.subrange(0, a[i].1.len() as int) =~= a[i].1);
    }
}

/// Why a body could not be turned into fields.
#[derive(Debug)]
pub enum ParseError {
    /// The body is not valid JSON; the text is the parser's message.
    InvalidJson(String),
    /// The body is not well-formed XML; the text says what is wrong.
    InvalidXml(String),
    /// The body does not look like a URL-encoded form.
    NotFormsEncoded,
    /// The body is not a well-formed multipart form; the text is the parser's message.
    InvalidMultipart(String),
}

/// The model of a [`ParseError`]: its kind and the characters of its message.
pub enum ParseErrorModel {
    InvalidJson(Seq<char>),
    InvalidXml(Seq<char>),
    NotFormsEncoded,
    InvalidMultipart(Seq<char>),
}

impl View for ParseError {
    type V = ParseErrorModel;

    open spec fn view(&self) -> ParseErrorModel {
        match self {
            ParseError::InvalidJson(m) => ParseErrorModel::InvalidJson(m@),
            ParseError::InvalidXml(m) => ParseErrorModel::InvalidXml(m@),
            ParseError::NotFormsEncoded => ParseErrorModel::NotFormsEncoded,
            ParseError::InvalidMultipart(m) => ParseErrorModel::InvalidMultipart(m@),
        }
    }
}

/// The message that a [`ParseError`] of this model shows.
pub open spec fn error_text(e: ParseErrorModel) -> Seq<char> {
    match e {
        ParseErrorModel::InvalidJson(m) => "Invalid JSON body: "@ + m,
        ParseErrorModel::InvalidXml(m) => "Invalid XML: "@ + m,
        ParseErrorModel::NotFormsEncoded => "Body is not forms encoded"@,
        ParseErrorModel::InvalidMultipart(m) => "Could not parse multipart body: "@ + m,
    }
}

impl ParseError {
    /// The error as one line of text: what kind it is, then its message.
    pub fn message(&self) -> (text: String)
        ensures
            text@ == error_text(self@),
    {
        match self {
            ParseError::InvalidJson(m) => {
                let mut out = String::from_str("Invalid JSON body: ");
                out.append(m.as_str());
                out
            },
            ParseError::InvalidXml(m) => {
                let mut out = String::from_str("Invalid XML: ");
                out.append(m.as_str());
                out
            },
            ParseError::NotFormsEncoded => String::from_str("Body is not forms encoded"),
            ParseError::InvalidMultipart(m) => {
                let mut out = String::from_str("Could not parse multipart body: ");
                out.append(m.as_str());
                out
            },
        }
    }
}

/// The result of a parse as a model: `None` for success, else the error.
pub open spec fn result_error(r: Result<(), ParseError>) -> Option<ParseErrorModel> {
    match r {
        Ok(_) => None,
        Err(e) => Some(e@),
    }
}

/// The view of an optional text.
pub open spec fn opt_text(t: Option<String>) -> Option<Seq<char>> {
    match t {
        Some(s) => Some(s@),
        None => None,
    }
}

/// The view of an optional borrowed text.
pub open spec fn opt_str(t: Option<&str>) -> Option<Seq<char>> {
    match t {
        Some(s) => Some(s@),
        None => None,
    }
}

/// A store of fields: string keys with string values. A key is held once;
/// values that are added under a key already present are joined to it.
pub struct RequestField {
    entries: Vec<(String, String)>,
}

impl View for RequestField {
    type V = FieldSeq;

    closed spec fn view(&self) -> FieldSeq {
        Seq::new(self.entries@.len(), |i: int| (self.entries@[i].0@, self.entries@[i].1@))
    }
}

impl RequestField {
    /// The store is valid: no key occurs twice.
    pub open spec fn wf(&self) -> bool {
        distinct_keys(self@)
    }

    /// An empty store.
    pub fn new() -> (r: RequestField)
        ensures
            r@ == Seq::<(Seq<char>, Seq<char>)>::empty(),
            r.wf(),
    {
        let r = RequestField { entries: Vec::new() };
        assert(r@ =~= Seq::<(Seq<char>, Seq<char>)>::empty());
        r
    }

    /// The number of keys.
    pub fn len(&self) -> (n: usize)
        ensures
            n == self@.len(),
    {
        self.entries.len()
    }

    /// Whether the store holds no field.
    pub fn is_empty(&self) -> (b: bool)
        ensures
            b == (self@.len() == 0),
    {
        self.entries.len() == 0
    }

    fn find(&self, key: &str) -> (r: Option<usize>)
        requires
            self.wf(),
        ensures
            r is Some == has_key(self@, key@),
            r is Some ==> r->0 as int == key_index(self@, key@) && r->0 < self@.len(),
    {
        let wanted = String::from_str(key);
        let mut i: usize = 0;
        while i < self.entries.len()
            invariant
                i <= self.entries@.len(),
                wanted@ == key@,
                self.wf(),
                forall|j: int| 0 <= j < i ==> (#[trigger] self@[j]).0 != key@,
            decreases self.entries@.len() - i,
        {
            if self.entries[i].0 == wanted {
                proof {
                    assert(self@[i as int].0 == key@);
                    assert(has_key(self@, key@));
                    let k = key_index(self@, key@);
                    assert(0 <= k < self@.len() && self@[k].0 == key@);
                    if k != i as int {
                        assert(self@[k].0 == self@[i as int].0);
                    }
                }
                return Some(i);
            }
            i += 1;
        }
        None
    }

    /// The value under `key`, if the key is present.
    pub fn get_str(&self, key: &str) -> (r: Option<&str>)
        requires
            self.wf(),
        ensures
            match r {
                Some(v) => Some(v@),
                None => None,
            } == lookup(self@, key@),
    {
        match self.find(key) {
            Some(i) => Some(self.entries[i].1.as_str()),
            None => None,
        }
    }

    /// Adds `key = value`: a new field where the key is absent; where it is
    /// present, its value becomes the older value, a space and `value`.
    pub fn add(&mut self, key: String, value: String)
        requires
            old(self).wf(),
        ensures
            final(self)@ == spec_add(old(self)@, key@, value@),
            final(self).wf(),
    {
        proof {
            lemma_add_keeps_distinct(self@, key@, value@);
        }
        match self.find(key.as_str()) {
            Some(i) => {
                let mut joined = self.entries[i].1.clone();
                joined.append(" ");
                joined.append(value.as_str());
                proof {
                    reveal_strlit(" ");
                    assert(" "@ =~= seq![' ']);
                }
                self.entries.set(i, (key, joined));
                assert(self@ =~= spec_add(old(self)@, key@, value@));
            },
            None => {
                self.entries.push((key, value));
                assert(self@ =~= spec_add(old(self)@, key@, value@));
            },
        }
    }

    /// The fields as pairs of key and value, in the order in which the keys came.
    pub fn entries(&self) -> (r: Vec<(String, String)>)
        ensures
            r@.len() == self@.len(),
            forall|i: int| 0 <= i < r@.len() ==> (#[trigger] r@[i]).0@ == self@[i].0 && r@[i].1@ == self@[i].1,
    {
        let mut out: Vec<(String, String)> = Vec::new();
        let mut i: usize = 0;
        while i < self.entries.len()
            invariant
                i <= self.entries@.len(),
                out@.len() == i,
                forall|j: int| 0 <= j < i ==> (#[trigger] out@[j]).0@ == self@[j].0 && out@[j].1@ == self@[j].1,
            decreases self.entries@.len() - i,
        {
            out.push((self.entries[i].0.clone(), self.entries[i].1.clone()));
            i += 1;
        }
        out
    }
}

} // verus!
