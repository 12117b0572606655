//! Value conversion between JSON and SQLite.
//!
//! - boolean columns accept 0/1, true/false, "0"/"1" and store INTEGER 0/1;
//! - JSON columns take an object/array (stored as its text) or text that must be JSON;
//!   they are read back as JSON unless the raw text is asked for;
//! - numeric columns take numbers or numeric text, not the empty string;
//! - the empty string `""` is a value of its own, distinct from `null`.

use crate::error::{e_bad_json, e_param, e_validation_many, fe, field_errs_view, ApiError, ErrV, FieldErrV, FieldError};
use crate::json::{clone_json, json_parsed, json_text, parse_json, to_json_text, Json, JsonV};
use crate::schema::Column;
use crate::text::{cat, chars_of, copy_string, copy_strings, float_literal, i64_of_text, i64_text, int_text, is_float_literal, lower, owned, parse_i64_trimmed, str_eq, string_of, to_lower, trim, trim_chars, trim_str};
use vstd::prelude::*;

verus! {

/// A value bound to an SQL placeholder, or read from a result row.  `Real` holds a
/// decimal or `inf`/`nan` literal in the syntax of Rust's `f64` parser; the value
/// bound is that literal read as `f64`.
#[derive(Debug, Clone, PartialEq)]
pub enum SqlVal {
    Null,
    Integer(i64),
    Real(String),
    Text(String),
    Blob,
}

pub enum SqlV {
    Null,
    Integer(i64),
    Real(Seq<char>),
    Text(Seq<char>),
    Blob,
}

impl View for SqlVal {
    type V = SqlV;

    open spec fn view(&self) -> SqlV {
        match self {
            SqlVal::Null => SqlV::Null,
            SqlVal::Integer(i) => SqlV::Integer(*i),
            SqlVal::Real(t) => SqlV::Real(t@),
            SqlVal::Text(s) => SqlV::Text(s@),
            SqlVal::Blob => SqlV::Blob,
        }
    }
}

pub open spec fn sql_view(s: Seq<SqlVal>) -> Seq<SqlV> {
    s.map_values(|v: SqlVal| v@)
}

pub fn clone_sql(v: &SqlVal) -> (r: SqlVal)
    ensures
        r@ == v@,
{
    match v {
        SqlVal::Null => SqlVal::Null,
        SqlVal::Integer(i) => SqlVal::Integer(*i),
        SqlVal::Real(t) => SqlVal::Real(copy_string(t)),
        SqlVal::Text(s) => SqlVal::Text(copy_string(s)),
        SqlVal::Blob => SqlVal::Blob,
    }
}

// ---------------------------------------------------------------------------
// JSON -> SQLite, for writes and typed comparisons
// ---------------------------------------------------------------------------

pub open spec fn e_type(col: Column, v: JsonV) -> ErrV {
    e_validation_many(
        seq![FieldErrV { actual: Some(v), ..fe(col.name@, "类型不匹配，期望 "@ + col.ty@) }],
    )
}

pub open spec fn e_not_in_enum(col: Column, allowed: Seq<Seq<char>>, v: JsonV) -> ErrV {
    e_validation_many(
        seq![FieldErrV { expected: Some(allowed), actual: Some(v), ..fe(col.name@, "取值不在枚举内"@) }],
    )
}

pub open spec fn enum_ok(allowed: Seq<Seq<char>>, v: JsonV) -> bool {
    match v {
        JsonV::Str(s) => allowed.contains(s),
        _ => false,
    }
}

pub open spec fn truthy_bool_text(t: Seq<char>) -> bool {
    t == "1"@ || t == "true"@ || t == "TRUE"@ || t == "True"@
}

pub open spec fn falsy_bool_text(t: Seq<char>) -> bool {
    t == "0"@ || t == "false"@ || t == "FALSE"@ || t == "False"@ || t == ""@
}

/// The bound value (or error) for a value written to a BOOLEAN column.
pub open spec fn boolean_sql(col: Column, v: JsonV) -> Result<SqlV, ErrV> {
    let b: Option<bool> = match v {
        JsonV::Bool(b) => Some(b),
        JsonV::Int(i) => Some(i != 0),
        JsonV::Num(_) => Some(false),
        JsonV::Str(s) => if truthy_bool_text(trim(s)) {
            Some(true)
        } else if falsy_bool_text(trim(s)) {
            Some(false)
        } else {
            None
        },
        _ => None,
    };
    match b {
        Some(b) => Ok(SqlV::Integer(if b { 1 } else { 0 })),
        None => Err(e_type(col, v)),
    }
}

pub open spec fn integer_sql(col: Column, v: JsonV) -> Result<SqlV, ErrV> {
    match v {
        JsonV::Int(i) => Ok(SqlV::Integer(i)),
        JsonV::Str(s) => match i64_of_text(trim(s)) {
            Some(i) => Ok(SqlV::Integer(i)),
            None => Err(e_type(col, v)),
        },
        JsonV::Bool(b) => Ok(SqlV::Integer(if b { 1 } else { 0 })),
        _ => Err(e_type(col, v)),
    }
}

pub open spec fn real_sql(col: Column, v: JsonV) -> Result<SqlV, ErrV> {
    match v {
        JsonV::Int(i) => Ok(SqlV::Real(int_text(i as int))),
        JsonV::Num(t) => Ok(SqlV::Real(t)),
        JsonV::Str(s) => if float_literal(trim(s)) {
            Ok(SqlV::Real(trim(s)))
        } else {
            Err(e_type(col, v))
        },
        _ => Err(e_type(col, v)),
    }
}

/// Text stored for a value written to a TEXT (or other) column.
pub open spec fn text_of(v: JsonV) -> Seq<char> {
    match v {
        JsonV::Str(s) => s,
        JsonV::Bool(b) => if b {
            "1"@
        } else {
            "0"@
        },
        _ => json_text(v),
    }
}

pub open spec fn text_sql(col: Column, v: JsonV) -> Result<SqlV, ErrV> {
    match v {
        JsonV::Str(raw) => if col.json && trim(raw).len() > 0 && json_parsed(raw) is None {
            Err(e_bad_json(col.name@))
        } else {
            Ok(SqlV::Text(raw))
        },
        _ => Ok(SqlV::Text(text_of(v))),
    }
}

/// What a JSON value written to column `col` is bound as, or why it is refused.
pub open spec fn json_to_sql_spec(col: Column, v: JsonV) -> Result<SqlV, ErrV> {
    if v is Null {
        if col.not_null {
            Err(e_validation_many(seq![fe(col.name@, "必填字段不可为空"@)]))
        } else {
            Ok(SqlV::Null)
        }
    } else if col.enum_values is Some && !enum_ok(col.enum_values->0.deep_view(), v) {
        Err(e_not_in_enum(col, col.enum_values->0.deep_view(), v))
    } else if col.ty@ == "BOOLEAN"@ {
        boolean_sql(col, v)
    } else if col.ty@ == "INTEGER"@ {
        integer_sql(col, v)
    } else if col.ty@ == "REAL"@ {
        real_sql(col, v)
    } else {
        text_sql(col, v)
    }
}

fn type_err(col: &Column, v: &Json) -> (r: ApiError)
    ensures
        r@ == e_type(*col, v@),
{
    let reason = cat("类型不匹配，期望 ", col.ty.as_str());
    let f = FieldError::new(col.name.as_str(), reason.as_str()).with_actual(clone_json(v));
    let mut errs: Vec<FieldError> = Vec::new();
    errs.push(f);
    let r = ApiError::validation_many(errs);
    assert(field_errs_view(r.errors@) =~= seq![FieldErrV { actual: Some(v@), ..fe(col.name@, "类型不匹配，期望 "@ + col.ty@) }]);
    r
}

fn text_is(t: &Vec<char>, lit: &str) -> (r: bool)
    ensures
        r == (t@ == lit@),
{
    let l = chars_of(lit);
    crate::text::seq_eq(t, &l)
}

fn contains_string(v: &Vec<String>, s: &String) -> (r: bool)
    ensures
        r == v.deep_view().contains(s@),
{
    crate::text::contains_str(v, s.as_str())
}

/// JSON value -> value bound for column `col`, with enum, required and type checks.
pub fn json_to_sql(col: &Column, v: &Json) -> (r: Result<SqlVal, ApiError>)
    ensures
        match r {
            Ok(x) => json_to_sql_spec(*col, v@) == Ok::<SqlV, ErrV>(x@),
            Err(e) => json_to_sql_spec(*col, v@) == Err::<SqlV, ErrV>(e@),
        },
{
    if let Json::Null = v {
        if col.not_null {
            let mut errs: Vec<FieldError> = Vec::new();
            errs.push(FieldError::new(col.name.as_str(), "必填字段不可为空"));
            let e = ApiError::validation_many(errs);
            assert(field_errs_view(e.errors@) =~= seq![fe(col.name@, "必填字段不可为空"@)]);
            return Err(e);
        }
        return Ok(SqlVal::Null);
    }
    if let Some(allowed) = &col.enum_values {
        let ok = match v {
            Json::Str(s) => contains_string(allowed, s),
            _ => false,
        };
        if !ok {
            let f = FieldError::new(col.name.as_str(), "取值不在枚举内").with_expected(
                copy_strings(allowed),
            ).with_actual(clone_json(v));
            let mut errs: Vec<FieldError> = Vec::new();
            errs.push(f);
            let e = ApiError::validation_many(errs);
            assert(field_errs_view(e.errors@) =~= seq![FieldErrV { expected: Some(allowed.deep_view()), actual: Some(v@), ..fe(col.name@, "取值不在枚举内"@) }]);
            return Err(e);
        }
    }
    if str_eq(col.ty.as_str(), "BOOLEAN") {
        let b: bool = match v {
            Json::Bool(b) => *b,
            Json::Int(i) => *i != 0,
            Json::Num(_) => false,
            Json::Str(s) => {
                let cs = chars_of(s.as_str());
                let t = trim_chars(&cs);
                if text_is(&t, "1") || text_is(&t, "true") || text_is(&t, "TRUE") || text_is(
                    &t,
                    "True",
                ) {
                    true
                } else if text_is(&t, "0") || text_is(&t, "false") || text_is(&t, "FALSE")
                    || text_is(&t, "False") || text_is(&t, "") {
                    false
                } else {
                    return Err(type_err(col, v));
                }
            },
            _ => {
                return Err(type_err(col, v));
            },
        };
        return Ok(SqlVal::Integer(if b { 1 } else { 0 }));
    }
    if str_eq(col.ty.as_str(), "INTEGER") {
        let i: i64 = match v {
            Json::Int(i) => *i,
            Json::Str(s) => match parse_i64_trimmed(s.as_str()) {
                Some(i) => i,
                None => {
                    return Err(type_err(col, v));
                },
            },
            Json::Bool(b) => if *b {
                1
            } else {
                0
            },
            _ => {
                return Err(type_err(col, v));
            },
        };
        return Ok(SqlVal::Integer(i));
    }
    if str_eq(col.ty.as_str(), "REAL") {
        return match v {
            Json::Int(i) => Ok(SqlVal::Real(i64_text(*i))),
            Json::Num(t) => Ok(SqlVal::Real(copy_string(t))),
            Json::Str(s) => {
                let cs = chars_of(s.as_str());
                let t = trim_chars(&cs);
                if is_float_literal(&t) {
                    Ok(SqlVal::Real(string_of(t.as_slice())))
                } else {
                    Err(type_err(col, v))
                }
            },
            _ => Err(type_err(col, v)),
        };
    }
    match v {
        Json::Str(raw) => {
            if col.json {
                let t = trim_str(raw.as_str());
                if !t.as_str().is_empty() {
                    if parse_json(raw.as_str()).is_none() {
                        return Err(ApiError::bad_json(col.name.as_str()));
                    }
                }
            }
            Ok(SqlVal::Text(copy_string(raw)))
        },
        Json::Bool(b) => {
            proof {
                reveal_strlit("1");
                reveal_strlit("0");
            }
            Ok(SqlVal::Text(if *b { owned("1") } else { owned("0") }))
        },
        _ => Ok(SqlVal::Text(to_json_text(v))),
    }
}

/// What a JSON scalar is bound as when compared with the result of SQLite's
/// `json_extract`, which yields INTEGER/REAL for numbers (so a number must not
/// be bound as text).
pub open spec fn json_scalar_spec(v: JsonV) -> SqlV {
    match v {
        JsonV::Null => SqlV::Null,
        JsonV::Bool(b) => SqlV::Integer(if b { 1 } else { 0 }),
        JsonV::Int(i) => SqlV::Integer(i),
        JsonV::Num(t) => SqlV::Real(t),
        JsonV::Str(s) => SqlV::Text(s),
        _ => SqlV::Text(json_text(v)),
    }
}

pub fn json_scalar_to_sql(v: &Json) -> (r: SqlVal)
    ensures
        r@ == json_scalar_spec(v@),
{
    match v {
        Json::Null => SqlVal::Null,
        Json::Bool(b) => SqlVal::Integer(if *b { 1 } else { 0 }),
        Json::Int(i) => SqlVal::Integer(*i),
        Json::Num(t) => SqlVal::Real(copy_string(t)),
        Json::Str(s) => SqlVal::Text(copy_string(s)),
        _ => SqlVal::Text(to_json_text(v)),
    }
}

// ---------------------------------------------------------------------------
// SQLite -> JSON, for reads
// ---------------------------------------------------------------------------

/// What a stored value of column `col` reads back as.  JSON columns are decoded
/// (unless the raw text is asked for); text that does not parse stays text.
pub open spec fn sql_to_json_spec(col: Column, v: SqlV, raw_json: bool) -> JsonV {
    match v {
        SqlV::Null => JsonV::Null,
        SqlV::Integer(i) => JsonV::Int(i),
        SqlV::Real(t) => JsonV::Num(t),
        SqlV::Text(s) => if col.json && !raw_json && trim(s).len() > 0 {
            match json_parsed(s) {
                Some(j) => j,
                None => JsonV::Str(s),
            }
        } else {
            JsonV::Str(s)
        },
        SqlV::Blob => JsonV::Null,
    }
}

pub fn sql_to_json(col: &Column, v: SqlVal, raw_json: bool) -> (r: Json)
    ensures
        r@ == sql_to_json_spec(*col, v@, raw_json),
{
    match v {
        SqlVal::Null => Json::Null,
        SqlVal::Integer(i) => Json::Int(i),
        SqlVal::Real(t) => Json::Num(t),
        SqlVal::Text(s) => {
            if col.json && !raw_json {
                let t = trim_str(s.as_str());
                if !t.as_str().is_empty() {
                    return match parse_json(s.as_str()) {
                        Some(j) => j,
                        None => Json::Str(s),
                    };
                }
            }
            Json::Str(s)
        },
        SqlVal::Blob => Json::Null,
    }
}

/// An empty JSON object.
pub fn empty_object() -> (r: Json)
    ensures
        r@ == JsonV::Object(Seq::empty()),
{
    Json::Object(Vec::new())
}

/// The members of a request body, which must be a JSON object (40002 otherwise).
pub fn body_to_object(body: &Json) -> (r: Result<&Vec<(String, Json)>, ApiError>)
    ensures
        match r {
            Ok(m) => body@ == JsonV::Object(crate::json::jv_obj(m@)),
            Err(e) => !(body@ is Object) && e@ == e_param("请求体必须是 JSON 对象"@),
        },
{
    match body {
        Json::Object(m) => Ok(m),
        _ => Err(ApiError::param("请求体必须是 JSON 对象")),
    }
}

/// A sort direction -> (SQL keyword, whether NULLs go last).
pub open spec fn direction_spec(d: Seq<char>) -> Result<(Seq<char>, bool), ErrV> {
    let l = lower(d);
    if l == "asc"@ {
        Ok(("ASC"@, false))
    } else if l == "desc"@ {
        Ok(("DESC"@, false))
    } else if l == "asc_nulls_last"@ {
        Ok(("ASC"@, true))
    } else if l == "desc_nulls_last"@ {
        Ok(("DESC"@, true))
    } else if l == "asc_nulls_first"@ {
        Ok(("ASC"@, false))
    } else if l == "desc_nulls_first"@ {
        Ok(("DESC"@, false))
    } else {
        Err(e_param("非法排序方向: "@ + l))
    }
}

/// Normalises a user-given sort direction.
pub fn normalize_direction(d: &str) -> (r: Result<(&'static str, bool), ApiError>)
    ensures
        match r {
            Ok(x) => direction_spec(d@) == Ok::<(Seq<char>, bool), ErrV>((x.0@, x.1)),
            Err(e) => direction_spec(d@) == Err::<(Seq<char>, bool), ErrV>(e@),
        },
{
    let l = to_lower(d);
    let s = l.as_str();
    if str_eq(s, "asc") {
        Ok(("ASC", false))
    } else if str_eq(s, "desc") {
        Ok(("DESC", false))
    } else if str_eq(s, "asc_nulls_last") {
        Ok(("ASC", true))
    } else if str_eq(s, "desc_nulls_last") {
        Ok(("DESC", true))
    } else if str_eq(s, "asc_nulls_first") {
        Ok(("ASC", false))
    } else if str_eq(s, "desc_nulls_first") {
        Ok(("DESC", false))
    } else {
        let m = cat("非法排序方向: ", s);
        Err(ApiError::param(m.as_str()))
    }
}

/// What reading back a stored value gives, for a value the column accepted:
/// NULL reads as `null`; an integer written to an INTEGER column reads as that
/// integer; a number written to a REAL column reads as the number written (an
/// integer as its decimal text); `true`/`false` in a BOOLEAN column read as 1/0;
/// a string in a text column reads as the string, and in a JSON column (unless
/// its raw text is asked for) as the JSON it holds.
pub proof fn law_read_back_of_write(col: Column, v: JsonV, raw_json: bool)
    requires
        json_to_sql_spec(col, v) is Ok,
    ensures
        ({
            let back = sql_to_json_spec(col, json_to_sql_spec(col, v)->Ok_0, raw_json);
            &&& v is Null ==> back == JsonV::Null
            &&& col.ty@ == "INTEGER"@ && v is Int ==> back == v
            &&& col.ty@ == "REAL"@ && v is Num ==> back == v
            &&& v matches JsonV::Int(i) ==> (col.ty@ == "REAL"@ ==> back == JsonV::Num(int_text(i as int)))
            &&& v matches JsonV::Bool(b) ==> (col.ty@ == "BOOLEAN"@ ==> back == JsonV::Int(if b { 1 } else { 0 }))
            &&& v matches JsonV::Str(s) ==> (!(col.ty@ == "BOOLEAN"@ || col.ty@ == "INTEGER"@ || col.ty@ == "REAL"@)
                ==> back == (if col.json && !raw_json && trim(s).len() > 0 {
                json_parsed(s)->Some_0
            } else {
                v
            }))
        }),
{
    reveal_strlit("BOOLEAN");
    reveal_strlit("INTEGER");
    reveal_strlit("REAL");
    assert("INTEGER"@[0] != "BOOLEAN"@[0]);
    assert("REAL"@[0] != "BOOLEAN"@[0]);
    assert("REAL"@[0] != "INTEGER"@[0]);
}

/// Sort directions are read without regard to case.
pub proof fn law_direction_ignores_case(d: Seq<char>)
    ensures
        direction_spec(d) == direction_spec(lower(d)),
{
    crate::text::lemma_lower_idempotent(d);
}

} // verus!
