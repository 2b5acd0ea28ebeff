//! JSON documents as plain values.

use vstd::prelude::*;
use vstd::string::*;

use crate::flow::graph::Text;
use crate::text::{same, texts};

verus! {

/// A JSON value. A number is kept as its literal; the keys of an object stand in the order in
/// which they were first set.
pub enum Json {
    Null,
    Bool(bool),
    Number(String),
    Text(String),
    Array(Vec<Json>),
    Object(Vec<(String, Json)>),
}

/// A JSON value by the views of its parts.
pub enum JsonView {
    Null,
    Bool(bool),
    Number(Text),
    Text(Text),
    Array(Seq<JsonView>),
    Object(Seq<(Text, JsonView)>),
}

impl Json {
    pub open spec fn model(self) -> JsonView
        decreases self,
    {
        match self {
            Json::Null => JsonView::Null,
            Json::Bool(b) => JsonView::Bool(b),
            Json::Number(s) => JsonView::Number(s@),
            Json::Text(s) => JsonView::Text(s@),
            Json::Array(v) => JsonView::Array(Seq::new(v@.len(), |i: int| if 0 <= i < v@.len() { v@[i].model() } else { JsonView::Null })),
            Json::Object(v) => JsonView::Object(
                Seq::new(v@.len(), |i: int| if 0 <= i < v@.len() { (v@[i].0@, v@[i].1.model()) } else { (Seq::empty(), JsonView::Null) }),
            ),
        }
    }
}

/// The values of a list by their models.
pub open spec fn models(v: Seq<Json>) -> Seq<JsonView> {
    Seq::new(v.len(), |i: int| v[i].model())
}

/// The entries of an object by their models.
pub open spec fn entries(v: Seq<(String, Json)>) -> Seq<(Text, JsonView)> {
    Seq::new(v.len(), |i: int| (v[i].0@, v[i].1.model()))
}

/// `i` is the first entry under `key`.
pub open spec fn is_entry(o: Seq<(Text, JsonView)>, key: Text, i: int) -> bool {
    0 <= i < o.len() && o[i].0 == key && forall|j: int| 0 <= j < i ==> (#[trigger] o[j]).0 != key
}

pub open spec fn has_key(o: Seq<(Text, JsonView)>, key: Text) -> bool {
    exists|i: int| 0 <= i < o.len() && (#[trigger] o[i]).0 == key
}

pub open spec fn entry_index(o: Seq<(Text, JsonView)>, key: Text) -> int {
    choose|i: int| is_entry(o, key, i)
}

/// The value under `key`; null where there is none.
pub open spec fn field(o: Seq<(Text, JsonView)>, key: Text) -> JsonView {
    if has_key(o, key) {
        o[entry_index(o, key)].1
    } else {
        JsonView::Null
    }
}

/// The object with `value` under `key`.
pub open spec fn with_field(o: Seq<(Text, JsonView)>, key: Text, value: JsonView) -> Seq<(Text, JsonView)> {
    if has_key(o, key) {
        o.update(entry_index(o, key), (key, value))
    } else {
        o.push((key, value))
    }
}

pub proof fn lemma_entry(o: Seq<(Text, JsonView)>, key: Text, i: int)
    requires
        is_entry(o, key, i),
    ensures
        entry_index(o, key) == i,
        has_key(o, key),
{
    let j = entry_index(o, key);
    assert(is_entry(o, key, j));
    if i < j {
        assert(o[i].0 != key);
    }
    if j < i {
        assert(o[j].0 != key);
    }
}

/// What is set is what is read back, and every other field stays as it was.
pub proof fn law_fields_read_back(o: Seq<(Text, JsonView)>, key: Text, value: JsonView, other: Text)
    ensures
        has_key(with_field(o, key, value), key),
        field(with_field(o, key, value), key) == value,
        other != key ==> field(with_field(o, key, value), other) == field(o, other),
        other != key ==> has_key(with_field(o, key, value), other) == has_key(o, other),
{
    let p = with_field(o, key, value);
    if has_key(o, key) {
        lemma_has_entry(o, key);
        let i = entry_index(o, key);
        assert(is_entry(p, key, i)) by {
            assert forall|j: int| 0 <= j < i implies (#[trigger] p[j]).0 != key by {
                assert(o[j].0 != key);
            }
        }
        lemma_entry(p, key, i);
    } else {
        assert(is_entry(p, key, o.len() as int)) by {
            assert forall|j: int| 0 <= j < o.len() implies (#[trigger] p[j]).0 != key by {
                assert(o[j].0 != key);
            }
        }
        lemma_entry(p, key, o.len() as int);
    }
    if other != key {
        if has_key(o, other) {
            lemma_has_entry(o, other);
            let k = entry_index(o, other);
            assert(is_entry(p, other, k)) by {
                assert forall|j: int| 0 <= j < k implies (#[trigger] p[j]).0 != other by {
                    assert(o[j].0 != other);
                }
            }
            lemma_entry(p, other, k);
        } else if has_key(p, other) {
            let k = choose|k: int| 0 <= k < p.len() && (#[trigger] p[k]).0 == other;
            assert(o[k].0 == other);
        }
    }
}

pub proof fn lemma_has_entry(o: Seq<(Text, JsonView)>, key: Text)
    requires
        has_key(o, key),
    ensures
        is_entry(o, key, entry_index(o, key)),
{
    let w = choose|i: int| 0 <= i < o.len() && (#[trigger] o[i]).0 == key;
    lemma_first_entry(o, key, w);
}

proof fn lemma_first_entry(o: Seq<(Text, JsonView)>, key: Text, w: int)
    requires
        0 <= w < o.len(),
        o[w].0 == key,
    ensures
        exists|i: int| is_entry(o, key, i),
    decreases w,
{
    if exists|j: int| 0 <= j < w && (#[trigger] o[j]).0 == key {
        let j = choose|j: int| 0 <= j < w && (#[trigger] o[j]).0 == key;
        lemma_first_entry(o, key, j);
    } else {
        assert(is_entry(o, key, w));
    }
}

fn find_entry(o: &Vec<(String, Json)>, key: &str) -> (r: Option<usize>)
    ensures
        match r {
            Some(i) => is_entry(entries(o@), key@, i as int),
            None => !has_key(entries(o@), key@),
        },
{
    let ghost all = entries(o@);
    let mut i: usize = 0;
    while i < o.len()
        invariant
            i <= o@.len(),
            all == entries(o@),
            forall|j: int| 0 <= j < i ==> (#[trigger] all[j]).0 != key@,
        decreases o@.len() - i,
    {
        assert(all[i as int].0 == o@[i as int].0@);
        if same(&o[i].0, key) {
            return Some(i);
        }
        i += 1;
    }
    None
}

/// The value under `key`.
pub fn lookup<'a>(o: &'a Vec<(String, Json)>, key: &str) -> (r: Option<&'a Json>)
    ensures
        match r {
            Some(v) => has_key(entries(o@), key@) && v.model() == field(entries(o@), key@),
            None => !has_key(entries(o@), key@),
        },
{
    match find_entry(o, key) {
        Some(i) => {
            proof { lemma_entry(entries(o@), key@, i as int); }
            Some(&o[i].1)
        },
        None => None,
    }
}

/// Puts `value` under `key`.
pub fn put(o: &mut Vec<(String, Json)>, key: &str, value: Json)
    ensures
        entries(final(o)@) == with_field(entries(old(o)@), key@, value.model()),
{
    let ghost before = entries(o@);
    let ghost v = value.model();
    match find_entry(o, key) {
        Some(i) => {
            proof { lemma_entry(before, key@, i as int); }
            o[i] = (key.to_owned(), value);
            assert(entries(o@) =~= before.update(i as int, (key@, v)));
        },
        None => {
            o.push((key.to_owned(), value));
            assert(entries(o@) =~= before.push((key@, v)));
        },
    }
}

/// A value that is a string.
pub open spec fn as_text(v: JsonView) -> Option<Text> {
    match v {
        JsonView::Text(s) => Some(s),
        _ => None,
    }
}

/// A field of a value that may not be an object; null where there is none.
pub open spec fn part(v: JsonView, key: Text) -> JsonView {
    match v {
        JsonView::Object(o) => field(o, key),
        _ => JsonView::Null,
    }
}

/// A field of a value that may not be an object.
pub fn part_of<'a>(v: &'a Json, key: &str) -> (r: Option<&'a Json>)
    ensures
        match r {
            Some(j) => j.model() == part(v.model(), key@),
            None => part(v.model(), key@) is Null,
        },
{
    match v {
        Json::Object(o) => {
            assert(v.model()->Object_0 =~= entries(o@));
            lookup(o, key)
        },
        _ => None,
    }
}

/// A field that is a string.
pub fn text_of<'a>(v: &'a Json, key: &str) -> (r: Option<&'a String>)
    ensures
        match r {
            Some(s) => as_text(part(v.model(), key@)) == Some(s@),
            None => as_text(part(v.model(), key@)) is None,
        },
{
    match part_of(v, key) {
        Some(Json::Text(s)) => Some(s),
        _ => None,
    }
}

// ---- making values ----

/// An object of these entries.
pub fn object(v: Vec<(String, Json)>) -> (r: Json)
    ensures
        r.model() == JsonView::Object(entries(v@)),
{
    let ghost inside = entries(v@);
    let r = Json::Object(v);
    assert(r.model()->Object_0 =~= inside);
    r
}

/// A list of these values.
pub fn array(v: Vec<Json>) -> (r: Json)
    ensures
        r.model() == JsonView::Array(models(v@)),
{
    let ghost inside = models(v@);
    let r = Json::Array(v);
    assert(r.model()->Array_0 =~= inside);
    r
}

/// The strings as JSON values.
pub open spec fn text_models(v: Seq<Text>) -> Seq<JsonView> {
    v.map_values(|s: Text| JsonView::Text(s))
}

/// A list of strings.
pub fn text_array(v: &Vec<String>) -> (r: Json)
    ensures
        r.model() == JsonView::Array(text_models(texts(v@))),
{
    let mut out: Vec<Json> = Vec::new();
    let mut i: usize = 0;
    while i < v.len()
        invariant
            i <= v@.len(),
            out@.len() == i,
            forall|j: int| 0 <= j < i ==> (#[trigger] out@[j]).model() == JsonView::Text(v@[j]@),
        decreases v@.len() - i,
    {
        out.push(Json::Text(v[i].clone()));
        i += 1;
    }
    assert(models(out@) =~= text_models(texts(v@)));
    array(out)
}

/// A string, or null.
pub open spec fn text_or_null(s: Option<Text>) -> JsonView {
    match s {
        Some(t) => JsonView::Text(t),
        None => JsonView::Null,
    }
}

/// A string, or null.
pub fn text_or(s: Option<&str>) -> (r: Json)
    ensures
        r.model() == text_or_null(match s {
            Some(t) => Some(t@),
            None => None,
        }),
{
    match s {
        Some(t) => Json::Text(t.to_owned()),
        None => Json::Null,
    }
}

/// A field is read where it first stands: the first entry of that name counts, a name that does not
/// occur reads as null, and so does every field of what is no object.
pub proof fn law_the_first_field_counts(o: Seq<(Text, JsonView)>, key: Text, i: int, v: JsonView)
    ensures
        0 <= i < o.len() && o[i].0 == key && (forall|j: int| 0 <= j < i ==> (#[trigger] o[j]).0 != key) ==> field(o, key) == o[i].1 && part(
            JsonView::Object(o),
            key,
        ) == o[i].1,
        (forall|j: int| 0 <= j < o.len() ==> (#[trigger] o[j]).0 != key) ==> field(o, key) is Null,
        !(v is Object) ==> part(v, key) is Null,
{
    if 0 <= i < o.len() && o[i].0 == key && (forall|j: int| 0 <= j < i ==> (#[trigger] o[j]).0 != key) {
        lemma_entry(o, key, i);
    }
}

/// Texts read as texts, everything else does not, and a missing one is written as null.
pub proof fn law_texts_read_as_texts(s: Text, v: JsonView)
    ensures
        as_text(JsonView::Text(s)) == Some(s),
        !(v is Text) ==> as_text(v) is None,
        text_or_null(Some(s)) == JsonView::Text(s),
        text_or_null(None) is Null,
{
}

}
