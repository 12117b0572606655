//! The JSON values that flow through the library (request bodies, condition
//! values, response rows), their mathematical view, compact JSON text, and
//! the call into serde_json that parses JSON text.

use crate::text::{chars_of, copy_string, i64_of_text, i64_text, int_text, parse_i64_chars, str_eq, string_of};
use vstd::prelude::*;

verus! {

/// A JSON value.  Numbers that fit in `i64` are `Int`; every other number
/// (fractional, exponent, beyond `i64`) is `Num` and keeps its literal text.
#[derive(Debug, PartialEq)]
pub enum Json {
    Null,
    Bool(bool),
    Int(i64),
    Num(String),
    Str(String),
    Array(Vec<Json>),
    Object(Vec<(String, Json)>),
}

/// Mathematical view of a JSON value.
pub enum JsonV {
    Null,
    Bool(bool),
    Int(i64),
    Num(Seq<char>),
    Str(Seq<char>),
    Array(Seq<JsonV>),
    Object(Seq<(Seq<char>, JsonV)>),
}

pub open spec fn jv(j: Json) -> JsonV
    decreases j,
{
    match j {
        Json::Null => JsonV::Null,
        Json::Bool(b) => JsonV::Bool(b),
        Json::Int(i) => JsonV::Int(i),
        Json::Num(t) => JsonV::Num(t@),
        Json::Str(s) => JsonV::Str(s@),
        Json::Array(v) => JsonV::Array(jv_seq(v@)),
        Json::Object(m) => JsonV::Object(jv_obj(m@)),
    }
}

pub open spec fn jv_seq(s: Seq<Json>) -> Seq<JsonV>
    decreases s,
{
    if s.len() == 0 {
        Seq::empty()
    } else {
        jv_seq(s.drop_last()).push(jv(s.last()))
    }
}

pub open spec fn jv_obj(s: Seq<(String, Json)>) -> Seq<(Seq<char>, JsonV)>
    decreases s,
{
    if s.len() == 0 {
        Seq::empty()
    } else {
        jv_obj(s.drop_last()).push((s.last().0@, jv(s.last().1)))
    }
}

impl View for Json {
    type V = JsonV;

    open spec fn view(&self) -> JsonV {
        jv(*self)
    }
}

pub proof fn lemma_jv_seq(s: Seq<Json>)
    ensures
        jv_seq(s).len() == s.len(),
        forall|i: int| 0 <= i < s.len() ==> #[trigger] jv_seq(s)[i] == jv(s[i]),
    decreases s.len(),
{
    if s.len() > 0 {
        lemma_jv_seq(s.drop_last());
    }
}

pub proof fn lemma_jv_obj(s: Seq<(String, Json)>)
    ensures
        jv_obj(s).len() == s.len(),
        forall|i: int| 0 <= i < s.len() ==> #[trigger] jv_obj(s)[i] == (s[i].0@, jv(s[i].1)),
    decreases s.len(),
{
    if s.len() > 0 {
        lemma_jv_obj(s.drop_last());
    }
}

pub proof fn lemma_jv_seq_push(s: Seq<Json>, x: Json)
    ensures
        jv_seq(s.push(x)) == jv_seq(s).push(jv(x)),
{
    assert(s.push(x).drop_last() =~= s);
}

pub proof fn lemma_jv_obj_push(s: Seq<(String, Json)>, x: (String, Json))
    ensures
        jv_obj(s.push(x)) == jv_obj(s).push((x.0@, jv(x.1))),
{
    assert(s.push(x).drop_last() =~= s);
}

/// A copy of a JSON value.
pub fn clone_json(j: &Json) -> (r: Json)
    ensures
        r@ == j@,
    decreases j,
{
    match j {
        Json::Null => Json::Null,
        Json::Bool(b) => Json::Bool(*b),
        Json::Int(i) => Json::Int(*i),
        Json::Num(t) => Json::Num(copy_string(t)),
        Json::Str(s) => Json::Str(copy_string(s)),
        Json::Array(v) => Json::Array(clone_json_vec(v)),
        Json::Object(m) => Json::Object(clone_json_obj(m)),
    }
}

/// A copy of the members of a JSON object.
pub fn clone_json_obj(m: &Vec<(String, Json)>) -> (r: Vec<(String, Json)>)
    ensures
        jv_obj(r@) == jv_obj(m@),
    decreases m,
{
    let mut out: Vec<(String, Json)> = Vec::new();
    let mut i: usize = 0;
    while i < m.len()
        invariant
            i <= m.len(),
            jv_obj(out@) == jv_obj(m@.subrange(0, i as int)),
        decreases m.len() - i,
    {
        let k = copy_string(&m[i].0);
        let x = clone_json(&m[i].1);
        proof {
            lemma_jv_obj_push(out@, (k, x));
            lemma_jv_obj_push(m@.subrange(0, i as int), m@[i as int]);
            assert(m@.subrange(0, i + 1) =~= m@.subrange(0, i as int).push(m@[i as int]));
        }
        out.push((k, x));
        i += 1;
    }
    assert(m@.subrange(0, m.len() as int) =~= m@);
    out
}

/// A copy of a sequence of JSON values.
pub fn clone_json_vec(v: &Vec<Json>) -> (r: Vec<Json>)
    ensures
        jv_seq(r@) == jv_seq(v@),
    decreases v,
{
    let mut out: Vec<Json> = Vec::new();
    let mut i: usize = 0;
    while i < v.len()
        invariant
            i <= v.len(),
            jv_seq(out@) == jv_seq(v@.subrange(0, i as int)),
        decreases v.len() - i,
    {
        let x = clone_json(&v[i]);
        proof {
            lemma_jv_seq_push(out@, x);
            lemma_jv_seq_push(v@.subrange(0, i as int), v@[i as int]);
            assert(v@.subrange(0, i + 1) =~= v@.subrange(0, i as int).push(v@[i as int]));
        }
        out.push(x);
        i += 1;
    }
    assert(v@.subrange(0, v.len() as int) =~= v@);
    out
}

// ---------------------------------------------------------------------------
// Accessors (serde_json's `as_*` family)
// ---------------------------------------------------------------------------

/// The value stored under `k` in an object (the first such member).
pub open spec fn obj_get(m: Seq<(Seq<char>, JsonV)>, k: Seq<char>) -> Option<JsonV>
    decreases m.len(),
{
    if m.len() == 0 {
        None
    } else if m[0].0 == k {
        Some(m[0].1)
    } else {
        obj_get(m.drop_first(), k)
    }
}

/// The first member of `m` from `i` on whose key is `k`.
pub open spec fn member_at(m: Seq<(Seq<char>, JsonV)>, k: Seq<char>, i: int) -> Option<int>
    decreases m.len() - i,
{
    if i < 0 || i >= m.len() {
        None
    } else if m[i].0 == k {
        Some(i)
    } else {
        member_at(m, k, i + 1)
    }
}

/// `member_at` gives the first index from `i` on whose key is `k`, or none.
pub proof fn lemma_member_at_first(m: Seq<(Seq<char>, JsonV)>, k: Seq<char>, i: int)
    requires
        0 <= i,
    ensures
        match member_at(m, k, i) {
            Some(j) => i <= j < m.len() && m[j].0 == k && forall|q: int| i <= q < j ==> m[q].0 != k,
            None => forall|q: int| i <= q < m.len() ==> m[q].0 != k,
        },
    decreases m.len() - i,
{
    if i < m.len() && m[i].0 != k {
        lemma_member_at_first(m, k, i + 1);
    }
}

/// `obj_get` reads the first member whose key is `k`.
pub proof fn lemma_obj_get_first(m: Seq<(Seq<char>, JsonV)>, k: Seq<char>)
    ensures
        obj_get(m, k) == match member_at(m, k, 0) {
            Some(j) => Some(m[j].1),
            None => None::<JsonV>,
        },
    decreases m.len(),
{
    lemma_member_at_first(m, k, 0);
    if m.len() > 0 && m[0].0 != k {
        let t = m.drop_first();
        lemma_obj_get_first(t, k);
        lemma_member_at_first(t, k, 0);
        match member_at(m, k, 0) {
            Some(j) => {
                assert(t[j - 1] == m[j]);
                match member_at(t, k, 0) {
                    Some(j2) => {
                        assert(t[j2] == m[j2 + 1]);
                        if j2 < j - 1 {
                            assert(m[j2 + 1].0 == k);
                        }
                        if j2 > j - 1 {
                            assert(t[j - 1].0 == k);
                        }
                    },
                    None => {
                        assert(t[j - 1].0 == k);
                    },
                }
            },
            None => {
                match member_at(t, k, 0) {
                    Some(j2) => {
                        assert(t[j2] == m[j2 + 1]);
                    },
                    None => {},
                }
            },
        }
    }
}

/// `Map::get` on a JSON object.
pub fn json_get<'a>(m: &'a Vec<(String, Json)>, k: &str) -> (r: Option<&'a Json>)
    ensures
        match r {
            Some(x) => obj_get(jv_obj(m@), k@) == Some(x@) && exists|i: int| 0 <= i < m.len() && m@[i].1 == *x,
            None => obj_get(jv_obj(m@), k@) is None,
        },
{
    proof {
        lemma_jv_obj(m@);
    }
    let mut i: usize = 0;
    assert(jv_obj(m@).subrange(0, m.len() as int) =~= jv_obj(m@));
    while i < m.len()
        invariant
            i <= m.len(),
            jv_obj(m@).len() == m.len(),
            forall|q: int| 0 <= q < m.len() ==> #[trigger] jv_obj(m@)[q] == (m@[q].0@, jv(m@[q].1)),
            obj_get(jv_obj(m@), k@) == obj_get(jv_obj(m@).subrange(i as int, m.len() as int), k@),
        decreases m.len() - i,
    {
        let ghost rest = jv_obj(m@).subrange(i as int, m.len() as int);
        assert(rest.drop_first() =~= jv_obj(m@).subrange(i + 1, m.len() as int));
        assert(rest[0] == jv_obj(m@)[i as int]);
        if str_eq(m[i].0.as_str(), k) {
            return Some(&m[i].1);
        }
        i += 1;
    }
    None
}

pub open spec fn as_object(j: JsonV) -> Option<Seq<(Seq<char>, JsonV)>> {
    match j {
        JsonV::Object(m) => Some(m),
        _ => None,
    }
}

/// `Value::get` on any JSON value: a member of an object, nothing otherwise.
pub open spec fn get(j: JsonV, k: Seq<char>) -> Option<JsonV> {
    match j {
        JsonV::Object(m) => obj_get(m, k),
        _ => None,
    }
}

pub fn value_get<'a>(j: &'a Json, k: &str) -> (r: Option<&'a Json>)
    ensures
        match r {
            Some(x) => get(j@, k@) == Some(x@),
            None => get(j@, k@) is None,
        },
{
    match j {
        Json::Object(m) => json_get(m, k),
        _ => None,
    }
}

/// `Value::as_str`.
pub open spec fn as_str(j: Option<JsonV>) -> Option<Seq<char>> {
    match j {
        Some(JsonV::Str(s)) => Some(s),
        _ => None,
    }
}

/// `Value::as_i64` (serde_json gives `None` for every number that is not an `i64`).
pub open spec fn as_i64(j: JsonV) -> Option<i64> {
    match j {
        JsonV::Int(i) => Some(i),
        _ => None,
    }
}

/// `Value::as_bool`.
pub open spec fn as_bool(j: JsonV) -> Option<bool> {
    match j {
        JsonV::Bool(b) => Some(b),
        _ => None,
    }
}

// ---------------------------------------------------------------------------
// JSON text (serde_json)
// ---------------------------------------------------------------------------

/// What `serde_json::to_string` writes for a value: compact JSON, the members
/// of an object in serde_json's map order (by key); a `Num` is read as a
/// serde_json number and written as serde_json writes it, and a `Num` whose
/// text is not a JSON number is written as a JSON string.
pub uninterp spec fn json_text(j: JsonV) -> Seq<char>;

/// Moves a value into serde_json's representation, variant by variant; a
/// number's text is read back as a serde_json number.
#[verifier::external_body]
fn to_serde(j: &Json) -> serde_json::Value {
    match j {
        Json::Null => serde_json::Value::Null,
        Json::Bool(b) => serde_json::Value::Bool(*b),
        Json::Int(i) => serde_json::Value::from(*i),
        Json::Num(t) => match t.parse::<serde_json::Number>() {
            Ok(n) => serde_json::Value::Number(n),
            Err(_) => serde_json::Value::String(t.clone()),
        },
        Json::Str(s) => serde_json::Value::String(s.clone()),
        Json::Array(v) => serde_json::Value::Array(v.iter().map(to_serde).collect()),
        Json::Object(m) => serde_json::Value::Object(m.iter().map(|(k, x)| (k.clone(), to_serde(x))).collect()),
    }
}

/// `serde_json::to_string` of the value.  The contract only names the result
/// (`json_text`): the writing is serde_json's and is not restated.
#[verifier::external_body]
pub fn to_json_text(j: &Json) -> (r: String)
    ensures
        r@ == json_text(j@),
{
    serde_json::to_string(&to_serde(j)).unwrap_or_else(|_| "null".to_string())
}

// ---------------------------------------------------------------------------
// Parsing JSON text (serde_json)
// ---------------------------------------------------------------------------

#[verifier::external_type_specification]
#[verifier::external_body]
pub struct ExSerdeJsonValue(serde_json::Value);

/// Moves a serde_json value into the library's representation, variant by
/// variant; a number becomes `Num` with the text serde_json writes for it.
#[verifier::external_body]
fn from_serde(v: serde_json::Value) -> Json {
    match v {
        serde_json::Value::Null => Json::Null,
        serde_json::Value::Bool(b) => Json::Bool(b),
        serde_json::Value::Number(n) => Json::Num(n.to_string()),
        serde_json::Value::String(s) => Json::Str(s),
        serde_json::Value::Array(a) => Json::Array(a.into_iter().map(from_serde).collect()),
        serde_json::Value::Object(m) => Json::Object(m.into_iter().map(|(k, x)| (k, from_serde(x))).collect()),
    }
}

/// What `serde_json::from_str::<Value>` makes of a text, every number written
/// as serde_json writes it; `None` when the text is not a JSON document.
pub uninterp spec fn serde_parsed(s: Seq<char>) -> Option<JsonV>;

/// `serde_json::from_str::<serde_json::Value>`.  The contract claims only that the
/// result is a function of the text (named `serde_parsed`); JSON syntax itself is
/// left to serde_json and not restated.
#[verifier::external_body]
fn serde_parse(s: &str) -> (r: Option<Json>)
    ensures
        match r {
            Some(j) => serde_parsed(s@) == Some(j@),
            None => serde_parsed(s@) is None,
        },
{
    serde_json::from_str::<serde_json::Value>(s).ok().map(from_serde)
}

/// A number written as an `i64` becomes an integer; every other value keeps its form.
pub open spec fn settle(j: JsonV) -> JsonV
    decreases j,
{
    match j {
        JsonV::Num(t) => match i64_of_text(t) {
            Some(v) => JsonV::Int(v),
            None => JsonV::Num(t),
        },
        JsonV::Array(v) => JsonV::Array(settle_seq(v)),
        JsonV::Object(m) => JsonV::Object(settle_obj(m)),
        _ => j,
    }
}

pub open spec fn settle_seq(s: Seq<JsonV>) -> Seq<JsonV>
    decreases s,
{
    if s.len() == 0 {
        Seq::empty()
    } else {
        settle_seq(s.drop_last()).push(settle(s.last()))
    }
}

pub open spec fn settle_obj(m: Seq<(Seq<char>, JsonV)>) -> Seq<(Seq<char>, JsonV)>
    decreases m,
{
    if m.len() == 0 {
        Seq::empty()
    } else {
        settle_obj(m.drop_last()).push((m.last().0, settle(m.last().1)))
    }
}

/// What the library reads from a JSON text: serde_json's value with every
/// number that fits `i64` as an integer; `None` when the text is not JSON.
pub open spec fn json_parsed(s: Seq<char>) -> Option<JsonV> {
    match serde_parsed(s) {
        Some(j) => Some(settle(j)),
        None => None,
    }
}

/// The value with its numbers settled: those written as an `i64` become integers.
fn settle_json(j: &Json) -> (r: Json)
    ensures
        r@ == settle(j@),
    decreases j,
{
    match j {
        Json::Num(t) => {
            let cs = chars_of(t.as_str());
            match parse_i64_chars(&cs) {
                Some(v) => Json::Int(v),
                None => Json::Num(copy_string(t)),
            }
        },
        Json::Array(v) => Json::Array(settle_vec(v)),
        Json::Object(m) => Json::Object(settle_members(m)),
        _ => clone_json(j),
    }
}

fn settle_vec(v: &Vec<Json>) -> (r: Vec<Json>)
    ensures
        jv_seq(r@) == settle_seq(jv_seq(v@)),
    decreases v,
{
    let mut out: Vec<Json> = Vec::new();
    let mut i: usize = 0;
    while i < v.len()
        invariant
            i <= v.len(),
            jv_seq(out@) == settle_seq(jv_seq(v@.subrange(0, i as int))),
        decreases v.len() - i,
    {
        let x = settle_json(&v[i]);
        proof {
            lemma_jv_seq_push(out@, x);
            lemma_jv_seq_push(v@.subrange(0, i as int), v@[i as int]);
            assert(v@.subrange(0, i + 1) =~= v@.subrange(0, i as int).push(v@[i as int]));
            let pre = jv_seq(v@.subrange(0, i as int)).push(jv(v@[i as int]));
            assert(pre.drop_last() =~= jv_seq(v@.subrange(0, i as int)));
        }
        out.push(x);
        i += 1;
    }
    assert(v@.subrange(0, v.len() as int) =~= v@);
    out
}

fn settle_members(m: &Vec<(String, Json)>) -> (r: Vec<(String, Json)>)
    ensures
        jv_obj(r@) == settle_obj(jv_obj(m@)),
    decreases m,
{
    let mut out: Vec<(String, Json)> = Vec::new();
    let mut i: usize = 0;
    while i < m.len()
        invariant
            i <= m.len(),
            jv_obj(out@) == settle_obj(jv_obj(m@.subrange(0, i as int))),
        decreases m.len() - i,
    {
        let k = copy_string(&m[i].0);
        let x = settle_json(&m[i].1);
        proof {
            lemma_jv_obj_push(out@, (k, x));
            lemma_jv_obj_push(m@.subrange(0, i as int), m@[i as int]);
            assert(m@.subrange(0, i + 1) =~= m@.subrange(0, i as int).push(m@[i as int]));
            let pre = jv_obj(m@.subrange(0, i as int)).push((m@[i as int].0@, jv(m@[i as int].1)));
            assert(pre.drop_last() =~= jv_obj(m@.subrange(0, i as int)));
        }
        out.push((k, x));
        i += 1;
    }
    assert(m@.subrange(0, m.len() as int) =~= m@);
    out
}

/// Parses a JSON text: serde_json reads it, and every number that fits `i64`
/// becomes an integer.
pub fn parse_json(s: &str) -> (r: Option<Json>)
    ensures
        match r {
            Some(j) => json_parsed(s@) == Some(j@),
            None => json_parsed(s@) is None,
        },
{
    match serde_parse(s) {
        Some(j) => Some(settle_json(&j)),
        None => None,
    }
}

/// What `format!("{:?}", s)` writes for a string: the quoted, escaped form.
pub uninterp spec fn debug_text(s: Seq<char>) -> Seq<char>;

/// std's `Debug` for `str`, which quotes the text and escapes what is not printable.
/// The contract only names the result.
#[verifier::external_body]
pub fn debug_str(s: &str) -> (r: String)
    ensures
        r@ == debug_text(s@),
{
    format!("{s:?}")
}

/// A count as JSON: an integer (a count beyond `i64` keeps its decimal text).
pub open spec fn count_json(n: nat) -> JsonV {
    if n <= i64::MAX {
        JsonV::Int(n as i64)
    } else {
        JsonV::Num(crate::text::nat_text(n))
    }
}

pub fn count_value(n: usize) -> (r: Json)
    ensures
        r@ == count_json(n as nat),
{
    if (n as u64) <= 9223372036854775807u64 {
        Json::Int(n as i64)
    } else {
        Json::Num(crate::text::usize_text(n))
    }
}

/// An array of strings.
pub open spec fn str_array(s: Seq<Seq<char>>) -> JsonV {
    JsonV::Array(s.map_values(|x: Seq<char>| JsonV::Str(x)))
}

pub fn string_array(v: &Vec<String>) -> (r: Json)
    ensures
        r@ == str_array(v.deep_view()),
{
    let mut out: Vec<Json> = Vec::new();
    let mut i: usize = 0;
    while i < v.len()
        invariant
            i <= v.len(),
            out.len() == i,
            forall|q: int| 0 <= q < i ==> #[trigger] out@[q]@ == JsonV::Str(v@[q]@),
        decreases v.len() - i,
    {
        out.push(Json::Str(copy_string(&v[i])));
        i += 1;
    }
    proof {
        lemma_jv_seq(out@);
    }
    assert forall|q: int| 0 <= q < out.len() implies #[trigger] jv_seq(out@)[q] == JsonV::Str(v.deep_view()[q]) by {
        assert(v.deep_view()[q] == v@[q]@);
        assert(out@[q]@ == JsonV::Str(v@[q]@));
        assert(jv_seq(out@)[q] == jv(out@[q]));
    }
    assert(jv_seq(out@) =~= v.deep_view().map_values(|x: Seq<char>| JsonV::Str(x)));
    Json::Array(out)
}

} // verus!
