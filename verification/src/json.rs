//! A JSON document model on which the library works, with its mathematical view.
//!
//! Objects are kept as ordered lists of entries, in the order in which the parser
//! handed them over.  A lookup finds the first entry with the key; an insertion
//! replaces the value of that entry in place, or appends a new entry.

use vstd::prelude::*;

use crate::text::text_eq;
use serde_json::Value;

verus! {

/// A double as the parser read it: its IEEE-754 bits, and the serde_json number that
/// holds exactly those bits, kept so that the double is written back unchanged.  Only
/// the parser makes one; the library's code copies it whole.
#[derive(Debug, PartialEq)]
pub struct JsonFloat {
    bits: u64,
    raw: serde_json::Number,
}

impl View for JsonFloat {
    type V = u64;

    /// The double's IEEE-754 bits.
    closed spec fn view(&self) -> u64 {
        self.bits
    }
}

impl JsonFloat {
    /// The double's IEEE-754 bits.
    pub fn bits(&self) -> (r: u64)
        ensures
            r == self@,
    {
        self.bits
    }
}

/// A JSON value.  A number is kept as serde_json holds it: an integer that fits an
/// `i64`, a larger unsigned integer, or a double.
#[derive(Debug, PartialEq)]
pub enum Json {
    Null,
    Bool(bool),
    Int(i64),
    UInt(u64),
    Float(JsonFloat),
    Str(String),
    Array(Vec<Json>),
    Object(Vec<(String, Json)>),
}

/// The mathematical model of a [`Json`] value.
pub enum JsonView {
    Null,
    Bool(bool),
    Int(int),
    UInt(int),
    Float(u64),
    Str(Seq<char>),
    Array(Seq<JsonView>),
    Object(Seq<(Seq<char>, JsonView)>),
}

/// The view of a JSON value.
pub open spec fn json_view(j: Json) -> JsonView
    decreases j,
{
    match j {
        Json::Null => JsonView::Null,
        Json::Bool(b) => JsonView::Bool(b),
        Json::Int(n) => JsonView::Int(n as int),
        Json::UInt(n) => JsonView::UInt(n as int),
        Json::Float(f) => JsonView::Float(f@),
        Json::Str(s) => JsonView::Str(s@),
        Json::Array(items) => JsonView::Array(items_view(items@)),
        Json::Object(entries) => JsonView::Object(entries_view(entries@)),
    }
}

/// The view of a sequence of JSON values, element by element.
pub open spec fn items_view(s: Seq<Json>) -> Seq<JsonView>
    decreases s,
{
    if s.len() == 0 {
        Seq::empty()
    } else {
        items_view(s.drop_last()).push(json_view(s.last()))
    }
}

/// The view of a sequence of object entries, entry by entry.
pub open spec fn entries_view(s: Seq<(String, Json)>) -> Seq<(Seq<char>, JsonView)>
    decreases s,
{
    if s.len() == 0 {
        Seq::empty()
    } else {
        entries_view(s.drop_last()).push((s.last().0@, json_view(s.last().1)))
    }
}

impl View for Json {
    type V = JsonView;

    open spec fn view(&self) -> JsonView {
        json_view(*self)
    }
}


/// Every element of `items_view(s)` is the view of the matching element of `s`.
pub proof fn lemma_items_view(s: Seq<Json>)
    ensures
        items_view(s).len() == s.len(),
        forall|i: int| 0 <= i < s.len() ==> #[trigger] items_view(s)[i] == json_view(s[i]),
    decreases s.len(),
{
    if s.len() > 0 {
        lemma_items_view(s.drop_last());
    }
}

/// Every element of `entries_view(s)` is the view of the matching entry of `s`.
pub proof fn lemma_entries_view(s: Seq<(String, Json)>)
    ensures
        entries_view(s).len() == s.len(),
        forall|i: int|
            0 <= i < s.len() ==> #[trigger] entries_view(s)[i] == (s[i].0@, json_view(s[i].1)),
    decreases s.len(),
{
    if s.len() > 0 {
        lemma_entries_view(s.drop_last());
    }
}

/// The position of the first entry with key `k`, or -1 when there is none.
pub open spec fn first_index(es: Seq<(Seq<char>, JsonView)>, k: Seq<char>) -> int
    decreases es.len(),
{
    if es.len() == 0 {
        -1
    } else {
        let r = first_index(es.drop_last(), k);
        if r >= 0 {
            r
        } else if es.last().0 == k {
            es.len() - 1
        } else {
            -1
        }
    }
}

/// The value of the first entry with key `k`.
pub open spec fn lookup(es: Seq<(Seq<char>, JsonView)>, k: Seq<char>) -> Option<JsonView> {
    let i = first_index(es, k);
    if i >= 0 {
        Some(es[i].1)
    } else {
        None
    }
}

/// The entries after setting key `k` to `v`: the first entry with that key gets the
/// new value in place; without one, a new entry is appended.
pub open spec fn put(es: Seq<(Seq<char>, JsonView)>, k: Seq<char>, v: JsonView) -> Seq<
    (Seq<char>, JsonView),
> {
    let i = first_index(es, k);
    if i >= 0 {
        es.update(i, (k, v))
    } else {
        es.push((k, v))
    }
}

/// The member `k` of a JSON value: `None` when the value is not an object or has no
/// such member.
pub open spec fn member(j: JsonView, k: Seq<char>) -> Option<JsonView> {
    match j {
        JsonView::Object(es) => lookup(es, k),
        _ => None,
    }
}

/// `first_index` is the smallest position whose key is `k`.
pub proof fn lemma_first_index(es: Seq<(Seq<char>, JsonView)>, k: Seq<char>)
    ensures
        -1 <= first_index(es, k) < es.len(),
        first_index(es, k) >= 0 ==> es[first_index(es, k)].0 == k,
        forall|j: int|
            0 <= j < es.len() && (first_index(es, k) < 0 || j < first_index(es, k))
                ==> #[trigger] es[j].0 != k,
    decreases es.len(),
{
    if es.len() > 0 {
        lemma_first_index(es.drop_last(), k);
        assert forall|j: int|
            0 <= j < es.len() && (first_index(es, k) < 0 || j < first_index(es, k))
                implies #[trigger] es[j].0 != k by {
            if j < es.len() - 1 {
                assert(es.drop_last()[j] == es[j]);
            }
        }
    }
}

/// Two entry lists with the same keys at the same positions have the same first index
/// for every key.
pub proof fn lemma_first_index_same_keys(
    a: Seq<(Seq<char>, JsonView)>,
    b: Seq<(Seq<char>, JsonView)>,
    k: Seq<char>,
)
    requires
        a.len() == b.len(),
        forall|j: int| 0 <= j < a.len() ==> #[trigger] a[j].0 == b[j].0,
    ensures
        first_index(a, k) == first_index(b, k),
    decreases a.len(),
{
    if a.len() > 0 {
        assert forall|j: int| 0 <= j < a.drop_last().len() implies #[trigger] a.drop_last()[j].0
            == b.drop_last()[j].0 by {
            assert(a[j].0 == b[j].0);
        }
        lemma_first_index_same_keys(a.drop_last(), b.drop_last(), k);
    }
}

/// What a lookup finds after `put`: the new value under the key that was set, the old
/// value under every other key.
pub proof fn lemma_lookup_put(
    es: Seq<(Seq<char>, JsonView)>,
    k: Seq<char>,
    v: JsonView,
    k2: Seq<char>,
)
    ensures
        lookup(put(es, k, v), k2) == if k2 == k {
            Some(v)
        } else {
            lookup(es, k2)
        },
{
    let p = first_index(es, k);
    lemma_first_index(es, k);
    lemma_first_index(es, k2);
    let es2 = put(es, k, v);
    if p >= 0 {
        assert forall|j: int| 0 <= j < es.len() implies #[trigger] es2[j].0 == es[j].0 by {}
        lemma_first_index_same_keys(es2, es, k2);
        if k2 != k && first_index(es, k2) >= 0 {
            assert(first_index(es, k2) != p);
        }
    } else {
        assert(es2.drop_last() =~= es);
    }
}

/// A lookup on the pushed sequence: the old entries take precedence.
pub proof fn lemma_lookup_push(
    es: Seq<(Seq<char>, JsonView)>,
    e: (Seq<char>, JsonView),
    k: Seq<char>,
)
    ensures
        lookup(es.push(e), k) == if lookup(es, k) is Some {
            lookup(es, k)
        } else if e.0 == k {
            Some(e.1)
        } else {
            None::<JsonView>
        },
{
    lemma_first_index(es, k);
    assert(es.push(e).drop_last() =~= es);
}

/// The position of the first entry whose key is `key`.
pub fn find_key(entries: &Vec<(String, Json)>, key: &str) -> (r: Option<usize>)
    ensures
        match r {
            Some(i) => i < entries@.len() && i == first_index(entries_view(entries@), key@),
            None => first_index(entries_view(entries@), key@) == -1,
        },
{
    let ghost es = entries_view(entries@);
    proof {
        lemma_entries_view(entries@);
        lemma_first_index(es, key@);
    }
    let mut i: usize = 0;
    while i < entries.len()
        invariant
            es == entries_view(entries@),
            es.len() == entries@.len(),
            forall|j: int| 0 <= j < entries@.len() ==> #[trigger] es[j] == (entries@[j].0@, json_view(entries@[j].1)),
            -1 <= first_index(es, key@) < es.len(),
            first_index(es, key@) >= 0 ==> es[first_index(es, key@)].0 == key@,
            forall|j: int| 0 <= j < es.len() && (first_index(es, key@) < 0 || j < first_index(es, key@))
                ==> #[trigger] es[j].0 != key@,
            i <= entries.len(),
            forall|j: int| 0 <= j < i ==> #[trigger] es[j].0 != key@,
        decreases entries.len() - i,
    {
        if text_eq(entries[i].0.as_str(), key) {
            assert(es[i as int].0 == key@);
            return Some(i);
        }
        i = i + 1;
    }
    None
}

/// Sets `key` to `value` among the entries of an object: the first entry with the key
/// gets the value in place, and without one a new entry is appended.
pub fn put_entry(entries: &mut Vec<(String, Json)>, key: String, value: Json)
    ensures
        entries_view(final(entries)@) == put(entries_view(old(entries)@), key@, value@),
{
    proof {
        lemma_entries_view(entries@);
    }
    let ghost v = value@;
    let ghost k = key@;
    proof {
        lemma_first_index(entries_view(entries@), k);
    }
    match find_key(entries, key.as_str()) {
        Some(i) => {
            entries.set(i, (key, value));
            proof {
                lemma_entries_view(entries@);
                assert(entries_view(entries@) =~= put(entries_view(old(entries)@), k, v));
            }
        },
        None => {
            entries.push((key, value));
            proof {
                lemma_entries_view(entries@);
                assert(entries_view(entries@) =~= put(entries_view(old(entries)@), k, v));
            }
        },
    }
}

impl Json {
    /// The member `key` of this value, when it is an object that has one.
    pub fn get(&self, key: &str) -> (r: Option<&Json>)
        ensures
            match r {
                Some(v) => member(self@, key@) == Some(v@),
                None => member(self@, key@) is None,
            },
    {
        match self {
            Json::Object(entries) => {
                proof {
                    lemma_entries_view(entries@);
                }
                match find_key(entries, key) {
                    Some(i) => Some(&entries[i].1),
                    None => None,
                }
            },
            _ => None,
        }
    }

    /// The text of a string value.
    pub fn as_str(&self) -> (r: Option<&String>)
        ensures
            match r {
                Some(s) => self@ == JsonView::Str(s@),
                None => !(self@ is Str),
            },
    {
        match self {
            Json::Str(s) => Some(s),
            _ => None,
        }
    }

    /// The value of an integer that fits an `i64`.
    pub fn as_i64(&self) -> (r: Option<i64>)
        ensures
            match r {
                Some(n) => self@ == JsonView::Int(n as int),
                None => !(self@ is Int),
            },
    {
        match self {
            Json::Int(n) => Some(*n),
            _ => None,
        }
    }

    /// The entries of an object value.
    pub fn as_object(&self) -> (r: Option<&Vec<(String, Json)>>)
        ensures
            match r {
                Some(es) => self@ == JsonView::Object(entries_view(es@)),
                None => !(self@ is Object),
            },
    {
        match self {
            Json::Object(es) => Some(es),
            _ => None,
        }
    }
}

/// Setting a key to the value it already has leaves the entries as they are.
pub proof fn lemma_put_same(es: Seq<(Seq<char>, JsonView)>, k: Seq<char>, v: JsonView)
    requires
        lookup(es, k) == Some(v),
    ensures
        put(es, k, v) == es,
{
    lemma_first_index(es, k);
    let i = first_index(es, k);
    assert(es[i] == (k, v));
    assert(put(es, k, v) =~= es);
}

/// No key occurs twice among the entries.
pub open spec fn unique_keys(es: Seq<(Seq<char>, JsonView)>) -> bool {
    forall|i: int, j: int| 0 <= i < j < es.len() ==> #[trigger] es[i].0 != #[trigger] es[j].0
}

/// A well-formed JSON value: in every object, at any depth, no key occurs twice, as
/// in a JSON map.
pub open spec fn well_formed(j: JsonView) -> bool
    decreases j,
{
    match j {
        JsonView::Array(items) => items_well_formed(items),
        JsonView::Object(es) => unique_keys(es) && entries_well_formed(es),
        _ => true,
    }
}

/// Every element is well-formed.
pub open spec fn items_well_formed(s: Seq<JsonView>) -> bool
    decreases s,
{
    if s.len() == 0 {
        true
    } else {
        items_well_formed(s.drop_last()) && well_formed(s.last())
    }
}

/// Every entry's value is well-formed.
pub open spec fn entries_well_formed(s: Seq<(Seq<char>, JsonView)>) -> bool
    decreases s,
{
    if s.len() == 0 {
        true
    } else {
        entries_well_formed(s.drop_last()) && well_formed(s.last().1)
    }
}

/// `entries_well_formed` holds exactly when every entry's value is well-formed.
pub proof fn lemma_entries_well_formed(s: Seq<(Seq<char>, JsonView)>)
    ensures
        entries_well_formed(s) <==> forall|i: int| 0 <= i < s.len() ==> well_formed(#[trigger] s[i].1),
    decreases s.len(),
{
    if s.len() > 0 {
        lemma_entries_well_formed(s.drop_last());
        if entries_well_formed(s) {
            assert forall|i: int| 0 <= i < s.len() implies well_formed(#[trigger] s[i].1) by {
                if i < s.len() - 1 {
                    assert(s.drop_last()[i] == s[i]);
                }
            }
        }
        if forall|i: int| 0 <= i < s.len() ==> well_formed(#[trigger] s[i].1) {
            assert forall|i: int| 0 <= i < s.drop_last().len() implies well_formed(
                #[trigger] s.drop_last()[i].1,
            ) by {
                assert(s.drop_last()[i] == s[i]);
            }
            assert(well_formed(s[s.len() - 1].1));
        }
    }
}

/// A member of a well-formed value is well-formed.
pub proof fn lemma_member_well_formed(j: JsonView, k: Seq<char>)
    requires
        well_formed(j),
        member(j, k) is Some,
    ensures
        well_formed(member(j, k)->0),
{
    let es = j->Object_0;
    lemma_entries_well_formed(es);
    lemma_first_index(es, k);
    assert(well_formed(es[first_index(es, k)].1));
}

/// Setting a key keeps the entries of an object well-formed.
pub proof fn lemma_put_well_formed(es: Seq<(Seq<char>, JsonView)>, k: Seq<char>, v: JsonView)
    requires
        unique_keys(es),
        entries_well_formed(es),
        well_formed(v),
    ensures
        unique_keys(put(es, k, v)),
        entries_well_formed(put(es, k, v)),
        well_formed(JsonView::Object(put(es, k, v))),
{
    lemma_first_index(es, k);
    lemma_entries_well_formed(es);
    let es2 = put(es, k, v);
    lemma_entries_well_formed(es2);
    assert forall|i: int| 0 <= i < es2.len() implies well_formed(#[trigger] es2[i].1) by {
        if i < es.len() && i != first_index(es, k) {
            assert(es2[i] == es[i]);
        }
    }
    assert forall|i: int, j: int| 0 <= i < j < es2.len() implies #[trigger] es2[i].0
        != #[trigger] es2[j].0 by {
        if j < es.len() {
            assert(es[i].0 != es[j].0);
        }
    }
}

/// serde_json's number.
#[verifier::external_type_specification]
#[verifier::external_body]
pub struct ExNumber(serde_json::Number);

/// A copy of a serde_json number (its derived `Clone`).
#[verifier::external_body]
fn clone_number(n: &serde_json::Number) -> serde_json::Number {
    n.clone()
}

impl Clone for JsonFloat {
    /// A copy with the same bits.
    fn clone(&self) -> (r: Self)
        ensures
            r@ == self@,
    {
        JsonFloat { bits: self.bits, raw: clone_number(&self.raw) }
    }
}

/// serde_json's own JSON value, which the parser gives and the writer takes.
#[verifier::external_type_specification]
#[verifier::external_body]
pub struct ExValue(Value);

/// The library's model of a serde_json number: an integer that `Number::as_i64`
/// gives stays an integer, a larger one that `Number::as_u64` gives stays an unsigned
/// integer, and a double is kept with its bits (`as_f64`, then `to_bits`).
#[verifier::external_body]
fn json_from_number(n: serde_json::Number) -> Json {
    match (n.as_i64(), n.as_u64(), n.as_f64()) {
        (Some(i), _, _) => Json::Int(i),
        (None, Some(u), _) => Json::UInt(u),
        (None, None, x) => Json::Float(JsonFloat { bits: x.unwrap_or_default().to_bits(), raw: n }),
    }
}

/// The library's model of a serde_json value, node for node: numbers as
/// [`json_from_number`] gives them; strings, arrays and maps move over in their order.
#[verifier::external_body]
fn json_from_value(v: Value) -> Json {
    match v {
        Value::Null => Json::Null,
        Value::Bool(b) => Json::Bool(b),
        Value::Number(n) => json_from_number(n),
        Value::String(s) => Json::Str(s),
        Value::Array(a) => Json::Array(a.into_iter().map(json_from_value).collect()),
        Value::Object(m) => Json::Object(m.into_iter().map(|(k, x)| (k, json_from_value(x))).collect()),
    }
}

/// The serde_json value of a document of the library, node for node; a double is
/// written with the serde_json number it was read as.
#[verifier::external_body]
fn value_from_json(j: &Json) -> Value {
    match j {
        Json::Null => Value::Null,
        Json::Bool(b) => Value::Bool(*b),
        Json::Int(i) => Value::from(*i),
        Json::UInt(u) => Value::from(*u),
        Json::Float(f) => Value::Number(f.raw.clone()),
        Json::Str(s) => Value::String(s.clone()),
        Json::Array(a) => Value::Array(a.iter().map(value_from_json).collect()),
        Json::Object(es) => Value::Object(es.iter().map(|(k, x)| (k.clone(), value_from_json(x))).collect()),
    }
}

/// What `serde_json::from_str::<Value>` makes of a text, in the library's model: the
/// document, or the text of the error (`serde_json::Error`'s `Display`).
pub uninterp spec fn parsed_json(text: Seq<char>) -> Result<JsonView, Seq<char>>;

/// Parses a JSON text.
///
/// Calls `serde_json::from_str::<serde_json::Value>` and turns the value into the
/// library's model with [`json_from_value`], or the error into its text.  What the
/// parser accepts and builds (the JSON grammar, number handling, escapes) is not
/// written out: the outcome is named [`parsed_json`] of the text.  Stated beside it:
/// a parsed document is well-formed, since serde_json's map keeps one entry per key.
#[verifier::external_body]
pub(crate) fn parse_json(text: &str) -> (r: Result<Json, String>)
    ensures
        match r {
            Ok(j) => parsed_json(text@) == Ok::<JsonView, Seq<char>>(j@) && well_formed(j@),
            Err(e) => parsed_json(text@) == Err::<JsonView, Seq<char>>(e@),
        },
{
    match serde_json::from_str::<Value>(text) {
        Ok(v) => Ok(json_from_value(v)),
        Err(e) => Err(e.to_string()),
    }
}

/// The compact JSON text that `serde_json::to_string` writes for a document.
pub uninterp spec fn json_text(doc: JsonView) -> Seq<char>;

/// Writes a document as compact JSON text.
///
/// Calls `serde_json::to_string` on the serde_json value of the document (see
/// [`value_from_json`]); writing a `Value` to a `String` cannot fail.  The text is not
/// written out here: it is named [`json_text`] of the document.
#[verifier::external_body]
pub(crate) fn json_to_text(doc: &Json) -> (r: String)
    ensures
        r@ == json_text(doc@),
{
    serde_json::to_string(&value_from_json(doc)).unwrap()
}

impl Clone for Json {
    /// A copy with the same view.
    fn clone(&self) -> (r: Self)
        ensures
            r@ == self@,
        decreases self,
    {
        match self {
            Json::Null => Json::Null,
            Json::Bool(b) => Json::Bool(*b),
            Json::Int(n) => Json::Int(*n),
            Json::UInt(n) => Json::UInt(*n),
            Json::Float(f) => Json::Float(f.clone()),
            Json::Str(s) => Json::Str(s.clone()),
            Json::Array(items) => {
                let mut out: Vec<Json> = Vec::new();
                let mut i: usize = 0;
                while i < items.len()
                    invariant
                        i <= items.len(),
                        *self == Json::Array(*items),
                        out@.len() == i,
                        forall|j: int| 0 <= j < i ==> #[trigger] json_view(out@[j]) == json_view(
                            items@[j],
                        ),
                    decreases items.len() - i,
                {
                    proof {
                        assert(decreases_to!(*self => self->Array_0));
                        assert(decreases_to!(*items => items[i as int]));
                        assert(decreases_to!(self => items[i as int]));
                    }
                    let c = items[i].clone();
                    out.push(c);
                    i = i + 1;
                }
                proof {
                    lemma_items_view(out@);
                    lemma_items_view(items@);
                    assert(items_view(out@) =~= items_view(items@));
                }
                Json::Array(out)
            },
            Json::Object(entries) => {
                let mut out: Vec<(String, Json)> = Vec::new();
                let mut i: usize = 0;
                while i < entries.len()
                    invariant
                        i <= entries.len(),
                        *self == Json::Object(*entries),
                        out@.len() == i,
                        forall|j: int|
                            0 <= j < i ==> #[trigger] out@[j].0@ == entries@[j].0@ && json_view(
                                out@[j].1,
                            ) == json_view(entries@[j].1),
                    decreases entries.len() - i,
                {
                    let k = entries[i].0.clone();
                    proof {
                        assert(decreases_to!(*self => self->Object_0));
                        assert(decreases_to!(*entries => entries[i as int]));
                        assert(decreases_to!(entries[i as int] => entries[i as int].1));
                        assert(decreases_to!(self => entries[i as int].1));
                    }
                    let v = entries[i].1.clone();
                    out.push((k, v));
                    i = i + 1;
                }
                proof {
                    lemma_entries_view(out@);
                    lemma_entries_view(entries@);
                    assert(entries_view(out@) =~= entries_view(entries@));
                }
                Json::Object(out)
            },
        }
    }
}

} // verus!
