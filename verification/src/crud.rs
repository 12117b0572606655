//! Generic CRUD: one implementation serves every table of the whitelist.  Table and
//! column names come from the `Registry`; every value is a bound parameter.  This
//! module holds what the requests decide and build; running the statements is the
//! server's part.

use crate::error::{
    e_param, e_unknown_column, e_validation_many, fe, field_errs_view, ApiError, ErrV, FieldErrV, FieldError,
};
use crate::json::{clone_json, jv, jv_obj, lemma_jv_obj, obj_get, Json, JsonV};
use crate::query::ast::{cond_sql, qi, qi2, quote_ident, repeat_join, repeat_text, render_cond, Cond, CondV, Leaf, LeafV, Op};
use crate::query::parse::{orders_view, OrderBy, OrderByV, QuerySpec, QuerySpecV};
use crate::schema::{col_names, Column, Registry, Table};
use crate::text::{cat, cat3, chars_of, copy_string, i64_of_text, join, join_strings, owned, parse_i64_chars, str_eq};
use crate::value::{json_to_sql, json_to_sql_spec, sql_view, SqlV, SqlVal};
use vstd::prelude::*;

verus! {

/// The envelope of every successful answer: `{code: 0, message: "ok", data}`.
pub open spec fn ok_spec(data: JsonV) -> JsonV {
    JsonV::Object(seq![("code"@, JsonV::Int(0)), ("message"@, JsonV::Str("ok"@)), ("data"@, data)])
}

pub fn ok(data: Json) -> (r: Json)
    ensures
        r@ == ok_spec(data@),
{
    let mut m: Vec<(String, Json)> = Vec::new();
    m.push((owned("code"), Json::Int(0)));
    m.push((owned("message"), Json::Str(owned("ok"))));
    m.push((owned("data"), data));
    proof {
        lemma_jv_obj(m@);
        assert(jv_obj(m@) =~= seq![("code"@, JsonV::Int(0)), ("message"@, JsonV::Str("ok"@)), ("data"@, data@)]);
    }
    Json::Object(m)
}

/// Rust's division of `a` by a positive `b`, which rounds toward zero.
pub open spec fn div_toward_zero(a: int, b: int) -> int {
    if a >= 0 {
        a / b
    } else {
        -((-a) / b)
    }
}

/// Pages needed for `total` rows, `size` per page: `(total + size - 1) / size`
/// as Rust divides, none for a size that is not positive.
pub open spec fn pages_of(total: int, size: int) -> int {
    if size <= 0 {
        0
    } else {
        div_toward_zero(total + size - 1, size)
    }
}

/// Pages needed for `total` rows, `size` per page (none for a size that is not positive).
pub fn page_count(total: i64, size: i64) -> (r: i64)
    requires
        size <= 0 || total + size - 1 <= i64::MAX,
    ensures
        r == pages_of(total as int, size as int),
        size > 0 && total >= 0 ==> r * size >= total && (r - 1) * size < total || (total == 0 && r == 0),
{
    if size <= 0 {
        0
    } else {
        let n = total + (size - 1);
        let r = n / size;
        assert(r == div_toward_zero(n as int, size as int));
        if total >= 0 {
            assert(r * size >= total && (r - 1) * size < total || (total == 0 && r == 0)) by (nonlinear_arith)
                requires
                    size > 0,
                    total >= 0,
                    r == (total + size - 1) / (size as int),
            ;
        }
        r
    }
}

/// The data of a list answer.
pub open spec fn list_spec(items: Seq<JsonV>, page: i64, page_size: i64, total: i64, pages: i64) -> JsonV {
    JsonV::Object(
        seq![
            ("items"@, JsonV::Array(items)),
            ("page"@, JsonV::Int(page)),
            ("page_size"@, JsonV::Int(page_size)),
            ("total"@, JsonV::Int(total)),
            ("page_count"@, JsonV::Int(pages)),
        ],
    )
}

/// The data of a list answer: the page of items, the page asked for, its size, the
/// total number of matching rows and the number of pages.
pub fn list_result(items: Vec<Json>, page: i64, page_size: i64, total: i64) -> (r: Json)
    requires
        page_size <= 0 || total + page_size - 1 <= i64::MAX,
    ensures
        r@ == list_spec(crate::json::jv_seq(items@), page, page_size, total, pages_of(total as int, page_size as int) as i64),
{
    let pc = page_count(total, page_size);
    let mut m: Vec<(String, Json)> = Vec::new();
    let ghost iv = crate::json::jv_seq(items@);
    m.push((owned("items"), Json::Array(items)));
    m.push((owned("page"), Json::Int(page)));
    m.push((owned("page_size"), Json::Int(page_size)));
    m.push((owned("total"), Json::Int(total)));
    m.push((owned("page_count"), Json::Int(pc)));
    proof {
        lemma_jv_obj(m@);
        assert(jv_obj(m@) =~= seq![
            ("items"@, JsonV::Array(iv)),
            ("page"@, JsonV::Int(page)),
            ("page_size"@, JsonV::Int(page_size)),
            ("total"@, JsonV::Int(total)),
            ("page_count"@, JsonV::Int(pc)),
        ]);
    }
    Json::Object(m)
}

// ---------------------------------------------------------------------------
// Writes
// ---------------------------------------------------------------------------

/// The members of a body read in order: the values to write, the field errors so far,
/// or the error that stops at once.
pub open spec fn writes_acc(t: Table, body: Seq<(Seq<char>, JsonV)>) -> Result<(Seq<(Seq<char>, SqlV)>, Seq<FieldErrV>), ErrV>
    decreases body.len(),
{
    if body.len() == 0 {
        Ok((Seq::empty(), Seq::empty()))
    } else {
        match writes_acc(t, body.drop_last()) {
            Err(e) => Err(e),
            Ok((out, errs)) => {
                let (k, v) = body.last();
                match t.col(k) {
                    None => Err(e_unknown_column(t.name@, k, col_names(t.columns@))),
                    Some(c) => if c.primary_key && c.auto_increment {
                        Ok((out, errs))
                    } else {
                        match json_to_sql_spec(c, v) {
                            Ok(sv) => Ok((out.push((k, sv)), errs)),
                            Err(e) => if e.code != 40001 {
                                Err(e)
                            } else {
                                Ok((out, errs + e.errors))
                            },
                        }
                    },
                }
            },
        }
    }
}

/// The required columns that a row to insert lacks, as field errors.
pub open spec fn missing_required(cols: Seq<Column>, given: Seq<Seq<char>>) -> Seq<FieldErrV>
    decreases cols.len(),
{
    if cols.len() == 0 {
        Seq::empty()
    } else {
        let c = cols.last();
        let rest = missing_required(cols.drop_last(), given);
        if (c.primary_key && c.auto_increment) || given.contains(c.name@) || !c.not_null || c.default is Some {
            rest
        } else {
            rest.push(fe(c.name@, "必填字段缺失"@))
        }
    }
}

pub open spec fn write_names(w: Seq<(Seq<char>, SqlV)>) -> Seq<Seq<char>> {
    w.map_values(|p: (Seq<char>, SqlV)| p.0)
}

/// The (column, value) pairs a request body writes, after the whitelist and value
/// checks: an unknown column stops at once, so does a refused JSON text; other value
/// refusals are gathered; an insert must give every required column; an update must
/// give something.  An auto-increment key is ignored.
pub open spec fn writes_spec(t: Table, body: Seq<(Seq<char>, JsonV)>, for_insert: bool) -> Result<Seq<(Seq<char>, SqlV)>, ErrV> {
    match writes_acc(t, body) {
        Err(e) => Err(e),
        Ok((out, errs)) => if errs.len() > 0 {
            Err(e_validation_many(errs))
        } else if for_insert {
            let miss = missing_required(t.columns@, write_names(out));
            if miss.len() > 0 {
                Err(e_validation_many(miss))
            } else {
                Ok(out)
            }
        } else if out.len() == 0 {
            Err(e_param("请求体为空，没有任何字段需要更新"@))
        } else {
            Ok(out)
        },
    }
}

pub open spec fn writes_view(w: Seq<(String, SqlVal)>) -> Seq<(Seq<char>, SqlV)> {
    w.map_values(|p: (String, SqlVal)| (p.0@, p.1@))
}

fn clone_field_errors(v: &Vec<FieldError>) -> (r: Vec<FieldError>)
    ensures
        field_errs_view(r@) == field_errs_view(v@),
{
    let mut out: Vec<FieldError> = Vec::new();
    let mut i: usize = 0;
    while i < v.len()
        invariant
            i <= v.len(),
            out.len() == i,
            forall|q: int| 0 <= q < i ==> #[trigger] out@[q]@ == v@[q]@,
        decreases v.len() - i,
    {
        out.push(v[i].duplicate());
        i += 1;
    }
    assert(field_errs_view(out@) =~= field_errs_view(v@));
    out
}

fn names_of(w: &Vec<(String, SqlVal)>) -> (r: Vec<String>)
    ensures
        r.deep_view() == write_names(writes_view(w@)),
{
    let mut out: Vec<String> = Vec::new();
    let mut i: usize = 0;
    while i < w.len()
        invariant
            i <= w.len(),
            out.len() == i,
            forall|q: int| 0 <= q < i ==> #[trigger] out@[q]@ == w@[q].0@,
        decreases w.len() - i,
    {
        out.push(copy_string(&w[i].0));
        i += 1;
    }
    assert(out.deep_view() =~= write_names(writes_view(w@)));
    out
}

fn missing_of(t: &Table, given: &Vec<String>) -> (r: Vec<FieldError>)
    ensures
        field_errs_view(r@) == missing_required(t.columns@, given.deep_view()),
{
    let mut out: Vec<FieldError> = Vec::new();
    let mut i: usize = 0;
    assert(field_errs_view(out@) =~= missing_required(t.columns@.subrange(0, 0), given.deep_view()));
    while i < t.columns.len()
        invariant
            i <= t.columns.len(),
            field_errs_view(out@) == missing_required(t.columns@.subrange(0, i as int), given.deep_view()),
        decreases t.columns.len() - i,
    {
        let ghost sub = t.columns@.subrange(0, i + 1);
        assert(sub.drop_last() =~= t.columns@.subrange(0, i as int));
        let c = &t.columns[i];
        let skip = (c.primary_key && c.auto_increment) || crate::text::contains_str(given, c.name.as_str()) || !c.not_null
            || c.default.is_some();
        if !skip {
            let ghost before = field_errs_view(out@);
            out.push(FieldError::new(c.name.as_str(), "必填字段缺失"));
            assert(field_errs_view(out@) =~= before.push(fe(c.name@, "必填字段缺失"@)));
        }
        i += 1;
    }
    assert(t.columns@.subrange(0, t.columns.len() as int) =~= t.columns@);
    out
}

proof fn lemma_writes_prefix_err(t: Table, body: Seq<(Seq<char>, JsonV)>, k: int)
    requires
        0 <= k <= body.len(),
        writes_acc(t, body.subrange(0, k)) is Err,
    ensures
        writes_acc(t, body) == writes_acc(t, body.subrange(0, k)),
    decreases body.len() - k,
{
    if k < body.len() {
        assert(body.subrange(0, k + 1).drop_last() =~= body.subrange(0, k));
        lemma_writes_prefix_err(t, body, k + 1);
    } else {
        assert(body.subrange(0, k) =~= body);
    }
}

/// The (column, value) pairs a body writes (see `writes_spec`).
pub fn collect_writes(t: &Table, body: &Vec<(String, Json)>, for_insert: bool) -> (r: Result<Vec<(String, SqlVal)>, ApiError>)
    ensures
        match r {
            Ok(w) => writes_spec(*t, jv_obj(body@), for_insert) == Ok::<Seq<(Seq<char>, SqlV)>, ErrV>(writes_view(w@)),
            Err(e) => writes_spec(*t, jv_obj(body@), for_insert) == Err::<Seq<(Seq<char>, SqlV)>, ErrV>(e@),
        },
{
    proof {
        lemma_jv_obj(body@);
    }
    let ghost bv = jv_obj(body@);
    let mut out: Vec<(String, SqlVal)> = Vec::new();
    let mut errs: Vec<FieldError> = Vec::new();
    let mut i: usize = 0;
    assert(bv.subrange(0, 0) =~= Seq::<(Seq<char>, JsonV)>::empty());
    assert(writes_view(out@) =~= Seq::<(Seq<char>, SqlV)>::empty());
    assert(field_errs_view(errs@) =~= Seq::<FieldErrV>::empty());
    while i < body.len()
        invariant
            i <= body.len(),
            bv == jv_obj(body@),
            bv.len() == body.len(),
            forall|q: int| 0 <= q < body.len() ==> #[trigger] bv[q] == (body@[q].0@, jv(body@[q].1)),
            writes_acc(*t, bv.subrange(0, i as int)) == Ok::<(Seq<(Seq<char>, SqlV)>, Seq<FieldErrV>), ErrV>(
                (writes_view(out@), field_errs_view(errs@)),
            ),
        decreases body.len() - i,
    {
        let ghost sub = bv.subrange(0, i + 1);
        assert(sub.drop_last() =~= bv.subrange(0, i as int));
        assert(sub.last() == bv[i as int]);
        let k = &body[i].0;
        let col = match t.column(k.as_str()) {
            Some(c) => c,
            None => {
                proof {
                    lemma_writes_prefix_err(*t, bv, i + 1);
                }
                return Err(ApiError::unknown_column(t.name.as_str(), k.as_str(), t.column_names()));
            },
        };
        if !(col.primary_key && col.auto_increment) {
            match json_to_sql(col, &body[i].1) {
                Ok(sv) => {
                    let ghost before = writes_view(out@);
                    let ghost svv = sv@;
                    out.push((copy_string(k), sv));
                    assert(writes_view(out@) =~= before.push((k@, svv)));
                },
                Err(e) => {
                    if e.code != 40001 {
                        proof {
                            lemma_writes_prefix_err(*t, bv, i + 1);
                        }
                        return Err(e);
                    }
                    let ghost before = field_errs_view(errs@);
                    let more = clone_field_errors(&e.errors);
                    let mut j: usize = 0;
                    while j < more.len()
                        invariant
                            j <= more.len(),
                            field_errs_view(errs@) == before + field_errs_view(more@).subrange(0, j as int),
                        decreases more.len() - j,
                    {
                        let ghost eb = field_errs_view(errs@);
                        errs.push(more[j].duplicate());
                        assert(field_errs_view(errs@) =~= eb.push(more@[j as int]@));
                        assert(before + field_errs_view(more@).subrange(0, j + 1) =~= (before + field_errs_view(more@).subrange(0, j as int)).push(field_errs_view(more@)[j as int]));
                        j += 1;
                    }
                    assert(field_errs_view(more@).subrange(0, more.len() as int) =~= e@.errors);
                },
            }
        }
        i += 1;
    }
    assert(bv.subrange(0, body.len() as int) =~= bv);
    if errs.len() > 0 {
        return Err(ApiError::validation_many(errs));
    }
    if for_insert {
        let given = names_of(&out);
        let miss = missing_of(t, &given);
        if miss.len() > 0 {
            return Err(ApiError::validation_many(miss));
        }
    } else if out.len() == 0 {
        return Err(ApiError::param("请求体为空，没有任何字段需要更新"));
    }
    Ok(out)
}

/// The same check, for the routes that write several rows.
pub fn collect_writes_public(t: &Table, body: &Vec<(String, Json)>, for_insert: bool) -> (r: Result<Vec<(String, SqlVal)>, ApiError>)
    ensures
        match r {
            Ok(w) => writes_spec(*t, jv_obj(body@), for_insert) == Ok::<Seq<(Seq<char>, SqlV)>, ErrV>(writes_view(w@)),
            Err(e) => writes_spec(*t, jv_obj(body@), for_insert) == Err::<Seq<(Seq<char>, SqlV)>, ErrV>(e@),
        },
{
    collect_writes(t, body, for_insert)
}


// ---------------------------------------------------------------------------
// INSERT, UPSERT, UPDATE
// ---------------------------------------------------------------------------

pub open spec fn quoted_list(cols: Seq<Seq<char>>) -> Seq<char> {
    join(cols.map_values(|c: Seq<char>| qi(c)), ", "@)
}

/// The columns an upsert overwrites: those written that are not conflict keys, in order.
pub open spec fn set_cols(cols: Seq<Seq<char>>, conflict: Seq<Seq<char>>) -> Seq<Seq<char>>
    decreases cols.len(),
{
    if cols.len() == 0 {
        Seq::empty()
    } else if conflict.contains(cols.last()) {
        set_cols(cols.drop_last(), conflict)
    } else {
        set_cols(cols.drop_last(), conflict).push(cols.last())
    }
}

/// `INSERT INTO "t" ("a", "b") VALUES (?, ?)`, with an `ON CONFLICT` clause for an upsert.
pub open spec fn insert_sql_spec(t: Table, cols: Seq<Seq<char>>, upsert: Option<Seq<Seq<char>>>) -> Seq<char> {
    let base = "INSERT INTO "@ + qi(t.name@) + " ("@ + quoted_list(cols) + ") VALUES ("@ + join(repeat_text("?"@, cols.len()), ", "@) + ")"@;
    match upsert {
        None => base,
        Some(conflict) => {
            let set = set_cols(cols, conflict);
            if set.len() == 0 {
                base + " ON CONFLICT ("@ + quoted_list(conflict) + ") DO NOTHING"@
            } else {
                base + " ON CONFLICT ("@ + quoted_list(conflict) + ") DO UPDATE SET "@ + join(
                    set.map_values(|c: Seq<char>| qi(c) + " = excluded."@ + qi(c)),
                    ", "@,
                )
            }
        },
    }
}

fn quoted_join(v: &Vec<String>) -> (r: String)
    ensures
        r@ == quoted_list(v.deep_view()),
{
    let mut q: Vec<String> = Vec::new();
    let mut i: usize = 0;
    while i < v.len()
        invariant
            i <= v.len(),
            q.len() == i,
            forall|k: int| 0 <= k < i ==> #[trigger] q@[k]@ == qi(v@[k]@),
        decreases v.len() - i,
    {
        q.push(quote_ident(v[i].as_str()));
        i += 1;
    }
    assert(q.deep_view() =~= v.deep_view().map_values(|c: Seq<char>| qi(c)));
    join_strings(&q, ", ")
}

/// The INSERT statement for `cols` (an upsert on `conflict` when given).
pub fn insert_sql(t: &Table, cols: &Vec<String>, upsert: Option<&Vec<String>>) -> (r: String)
    ensures
        r@ == insert_sql_spec(*t, cols.deep_view(), match upsert { Some(c) => Some(c.deep_view()), None => None }),
{
    let names = quoted_join(cols);
    let ph = repeat_join("?", cols.len(), ", ");
    let tn = quote_ident(t.name.as_str());
    let a = cat3("INSERT INTO ", tn.as_str(), " (");
    let b = cat3(a.as_str(), names.as_str(), ") VALUES (");
    let sql = cat3(b.as_str(), ph.as_str(), ")");
    let ghost base = sql@;
    match upsert {
        None => sql,
        Some(conflict) => {
            let mut set: Vec<String> = Vec::new();
            let mut i: usize = 0;
            assert(cols.deep_view().subrange(0, 0) =~= Seq::<Seq<char>>::empty());
            assert(set.deep_view() =~= set_cols(Seq::<Seq<char>>::empty(), conflict.deep_view()).map_values(|c: Seq<char>| qi(c) + " = excluded."@ + qi(c)));
            while i < cols.len()
                invariant
                    i <= cols.len(),
                    set.deep_view() == set_cols(cols.deep_view().subrange(0, i as int), conflict.deep_view()).map_values(
                        |c: Seq<char>| qi(c) + " = excluded."@ + qi(c),
                    ),
                decreases cols.len() - i,
            {
                let ghost sub = cols.deep_view().subrange(0, i + 1);
                assert(sub.drop_last() =~= cols.deep_view().subrange(0, i as int));
                assert(sub.last() == cols@[i as int]@);
                if !crate::text::contains_str(conflict, cols[i].as_str()) {
                    let q = quote_ident(cols[i].as_str());
                    let item = cat3(q.as_str(), " = excluded.", q.as_str());
                    let ghost before = set.deep_view();
                    set.push(item);
                    assert(set.deep_view() =~= before.push(qi(cols@[i as int]@) + " = excluded."@ + qi(cols@[i as int]@)));
                    assert(set_cols(sub, conflict.deep_view()) == set_cols(cols.deep_view().subrange(0, i as int), conflict.deep_view()).push(cols@[i as int]@));
                    assert(set.deep_view() =~= set_cols(sub, conflict.deep_view()).map_values(|c: Seq<char>| qi(c) + " = excluded."@ + qi(c)));
                }
                i += 1;
            }
            assert(cols.deep_view().subrange(0, cols.len() as int) =~= cols.deep_view());
            let target = quoted_join(conflict);
            if set.len() == 0 {
                let x = cat3(sql.as_str(), " ON CONFLICT (", target.as_str());
                cat(x.as_str(), ") DO NOTHING")
            } else {
                let x = cat3(sql.as_str(), " ON CONFLICT (", target.as_str());
                let y = cat(x.as_str(), ") DO UPDATE SET ");
                let j = join_strings(&set, ", ");
                cat(y.as_str(), j.as_str())
            }
        },
    }
}

/// On an upsert, the columns overwritten are exactly the written columns that are not
/// conflict keys: no key column is ever overwritten.
pub proof fn law_upsert_overwrites_non_keys(cols: Seq<Seq<char>>, conflict: Seq<Seq<char>>)
    ensures
        forall|x: Seq<char>| #[trigger] set_cols(cols, conflict).contains(x) <==> (cols.contains(x) && !conflict.contains(x)),
    decreases cols.len(),
{
    if cols.len() > 0 {
        law_upsert_overwrites_non_keys(cols.drop_last(), conflict);
        assert forall|x: Seq<char>| #[trigger] set_cols(cols, conflict).contains(x) <==> (cols.contains(x) && !conflict.contains(x)) by {
            if cols.contains(x) && x != cols.last() {
                let i = choose|i: int| 0 <= i < cols.len() && cols[i] == x;
                assert(cols.drop_last()[i] == x);
            }
            if cols.drop_last().contains(x) {
                let i = choose|i: int| 0 <= i < cols.drop_last().len() && cols.drop_last()[i] == x;
                assert(cols[i] == x);
            }
            if set_cols(cols, conflict).contains(x) && !set_cols(cols.drop_last(), conflict).contains(x) {
                let i = choose|i: int| 0 <= i < set_cols(cols, conflict).len() && set_cols(cols, conflict)[i] == x;
                assert(set_cols(cols, conflict) == set_cols(cols.drop_last(), conflict).push(cols.last()));
                if i < set_cols(cols.drop_last(), conflict).len() {
                    assert(set_cols(cols.drop_last(), conflict)[i] == x);
                }
            }
            if !conflict.contains(cols.last()) {
                assert(set_cols(cols, conflict).last() == cols.last());
                if set_cols(cols.drop_last(), conflict).contains(x) {
                    let i = choose|i: int| 0 <= i < set_cols(cols.drop_last(), conflict).len() && set_cols(cols.drop_last(), conflict)[i] == x;
                    assert(set_cols(cols, conflict)[i] == x);
                }
                if x == cols.last() {
                    assert(set_cols(cols, conflict)[set_cols(cols, conflict).len() - 1] == x);
                }
            }
            assert(cols.last() == cols[cols.len() - 1]);
        }
    }
}

pub open spec fn write_values(w: Seq<(Seq<char>, SqlV)>) -> Seq<SqlV> {
    w.map_values(|p: (Seq<char>, SqlV)| p.1)
}

/// The statement and parameters of a one-row insert.
pub open spec fn insert_plan_spec(t: Table, body: JsonV) -> Result<(Seq<char>, Seq<SqlV>), ErrV> {
    match body {
        JsonV::Object(m) => match writes_spec(t, m, true) {
            Err(e) => Err(e),
            Ok(w) => Ok((insert_sql_spec(t, write_names(w), None), write_values(w))),
        },
        _ => Err(e_param("请求体必须是 JSON 对象"@)),
    }
}

fn split_writes(w: Vec<(String, SqlVal)>) -> (r: (Vec<String>, Vec<SqlVal>))
    ensures
        r.0.deep_view() == write_names(writes_view(w@)),
        sql_view(r.1@) == write_values(writes_view(w@)),
{
    let mut cols: Vec<String> = Vec::new();
    let mut vals: Vec<SqlVal> = Vec::new();
    let mut i: usize = 0;
    while i < w.len()
        invariant
            i <= w.len(),
            cols.len() == i,
            vals.len() == i,
            forall|k: int| 0 <= k < i ==> #[trigger] cols@[k]@ == w@[k].0@,
            forall|k: int| 0 <= k < i ==> #[trigger] vals@[k]@ == w@[k].1@,
        decreases w.len() - i,
    {
        cols.push(copy_string(&w[i].0));
        vals.push(crate::value::clone_sql(&w[i].1));
        i += 1;
    }
    assert(cols.deep_view() =~= write_names(writes_view(w@)));
    assert(sql_view(vals@) =~= write_values(writes_view(w@)));
    (cols, vals)
}

/// The INSERT statement and parameters for one row given as a JSON object.
pub fn insert_plan(t: &Table, body: &Json) -> (r: Result<(String, Vec<SqlVal>), ApiError>)
    ensures
        match r {
            Ok((s, ps)) => insert_plan_spec(*t, body@) == Ok::<(Seq<char>, Seq<SqlV>), ErrV>((s@, sql_view(ps@))),
            Err(e) => insert_plan_spec(*t, body@) == Err::<(Seq<char>, Seq<SqlV>), ErrV>(e@),
        },
{
    let obj = crate::value::body_to_object(body)?;
    let writes = collect_writes(t, obj, true)?;
    let (cols, vals) = split_writes(writes);
    Ok((insert_sql(t, &cols, None), vals))
}

/// The string members of an array, in order (others are skipped).
pub open spec fn str_members(a: Seq<JsonV>) -> Seq<Seq<char>>
    decreases a.len(),
{
    if a.len() == 0 {
        Seq::empty()
    } else {
        match a.last() {
            JsonV::Str(s) => str_members(a.drop_last()).push(s),
            _ => str_members(a.drop_last()),
        }
    }
}

/// The conflict keys an upsert names (`conflictBy`: an array of names or one name).
pub open spec fn conflict_of(body: JsonV) -> Seq<Seq<char>> {
    match crate::json::get(body, "conflictBy"@) {
        Some(JsonV::Array(a)) => str_members(a),
        Some(JsonV::Str(s)) => seq![s],
        _ => Seq::empty(),
    }
}

/// The members of an object without those called `k`.
pub open spec fn without(m: Seq<(Seq<char>, JsonV)>, k: Seq<char>) -> Seq<(Seq<char>, JsonV)>
    decreases m.len(),
{
    if m.len() == 0 {
        Seq::empty()
    } else if m.last().0 == k {
        without(m.drop_last(), k)
    } else {
        without(m.drop_last(), k).push(m.last())
    }
}

pub open spec fn keys_of(m: Seq<(Seq<char>, JsonV)>) -> Seq<Seq<char>> {
    m.map_values(|p: (Seq<char>, JsonV)| p.0)
}

pub open spec fn key_lists(k: Seq<Seq<Seq<char>>>) -> Seq<Seq<char>> {
    k.map_values(|x: Seq<Seq<char>>| join(x, "+"@))
}

/// The statement and parameters of an upsert: insert, or on a conflict of the named
/// unique key overwrite the other written columns.
pub open spec fn upsert_plan_spec(t: Table, body: JsonV) -> Result<(Seq<char>, Seq<SqlV>), ErrV> {
    match body {
        JsonV::Object(m) => {
            let conflict = conflict_of(body);
            let uk = t.unique_keys.deep_view();
            if conflict.len() == 0 {
                Err(e_param("upsert 需要 conflictBy（指定唯一键列）"@))
            } else if !uk.contains(conflict) {
                Err(
                    e_param(
                        "conflictBy "@ + join(conflict, "+"@) + " 不是表 "@ + t.name@ + " 已声明的唯一键，可用: "@ + join(
                            key_lists(uk),
                            " / "@,
                        ),
                    ),
                )
            } else {
                let data = without(m, "conflictBy"@);
                match first_missing(conflict, keys_of(data)) {
                    Some(c) => Err(e_param("upsert 缺少唯一键字段 "@ + c)),
                    None => match writes_spec(t, data, true) {
                        Err(e) => Err(e),
                        Ok(w) => Ok((insert_sql_spec(t, write_names(w), Some(conflict)), write_values(w))),
                    },
                }
            }
        },
        _ => Err(e_param("请求体必须是 JSON 对象"@)),
    }
}

/// The first of `need` that `have` lacks.
pub open spec fn first_missing(need: Seq<Seq<char>>, have: Seq<Seq<char>>) -> Option<Seq<char>>
    decreases need.len(),
{
    if need.len() == 0 {
        None
    } else if !have.contains(need[0]) {
        Some(need[0])
    } else {
        first_missing(need.drop_first(), have)
    }
}

fn str_members_exec(a: &Vec<Json>) -> (r: Vec<String>)
    ensures
        r.deep_view() == str_members(crate::json::jv_seq(a@)),
{
    proof {
        crate::json::lemma_jv_seq(a@);
    }
    let ghost av = crate::json::jv_seq(a@);
    let mut out: Vec<String> = Vec::new();
    let mut i: usize = 0;
    assert(av.subrange(0, 0) =~= Seq::<JsonV>::empty());
    assert(out.deep_view() =~= Seq::<Seq<char>>::empty());
    while i < a.len()
        invariant
            i <= a.len(),
            av == crate::json::jv_seq(a@),
            av.len() == a.len(),
            forall|q: int| 0 <= q < a.len() ==> #[trigger] av[q] == jv(a@[q]),
            out.deep_view() == str_members(av.subrange(0, i as int)),
        decreases a.len() - i,
    {
        let ghost sub = av.subrange(0, i + 1);
        assert(sub.drop_last() =~= av.subrange(0, i as int));
        assert(sub.last() == jv(a@[i as int]));
        match &a[i] {
            Json::Str(x) => {
                let ghost before = out.deep_view();
                out.push(copy_string(x));
                assert(out.deep_view() =~= before.push(x@));
            },
            _ => {},
        }
        i += 1;
    }
    assert(av.subrange(0, a.len() as int) =~= av);
    out
}

pub(crate) fn without_exec(m: &Vec<(String, Json)>, k: &str) -> (r: Vec<(String, Json)>)
    ensures
        jv_obj(r@) == without(jv_obj(m@), k@),
{
    proof {
        lemma_jv_obj(m@);
    }
    let ghost mv = jv_obj(m@);
    let mut out: Vec<(String, Json)> = Vec::new();
    let mut i: usize = 0;
    assert(mv.subrange(0, 0) =~= Seq::<(Seq<char>, JsonV)>::empty());
    assert(jv_obj(out@) =~= Seq::<(Seq<char>, JsonV)>::empty());
    while i < m.len()
        invariant
            i <= m.len(),
            mv == jv_obj(m@),
            mv.len() == m.len(),
            forall|q: int| 0 <= q < m.len() ==> #[trigger] mv[q] == (m@[q].0@, jv(m@[q].1)),
            jv_obj(out@) == without(mv.subrange(0, i as int), k@),
        decreases m.len() - i,
    {
        let ghost sub = mv.subrange(0, i + 1);
        assert(sub.drop_last() =~= mv.subrange(0, i as int));
        assert(sub.last() == mv[i as int]);
        if !str_eq(m[i].0.as_str(), k) {
            let e = (copy_string(&m[i].0), clone_json(&m[i].1));
            proof {
                crate::json::lemma_jv_obj_push(out@, e);
            }
            out.push(e);
        }
        i += 1;
    }
    assert(mv.subrange(0, m.len() as int) =~= mv);
    out
}

fn has_key(m: &Vec<(String, Json)>, k: &str) -> (r: bool)
    ensures
        r == keys_of(jv_obj(m@)).contains(k@),
{
    proof {
        lemma_jv_obj(m@);
    }
    let mut i: usize = 0;
    while i < m.len()
        invariant
            i <= m.len(),
            jv_obj(m@).len() == m.len(),
            forall|q: int| 0 <= q < m.len() ==> #[trigger] jv_obj(m@)[q] == (m@[q].0@, jv(m@[q].1)),
            forall|q: int| 0 <= q < i ==> m@[q].0@ != k@,
        decreases m.len() - i,
    {
        if str_eq(m[i].0.as_str(), k) {
            assert(keys_of(jv_obj(m@))[i as int] == k@);
            return true;
        }
        i += 1;
    }
    assert(!keys_of(jv_obj(m@)).contains(k@)) by {
        if keys_of(jv_obj(m@)).contains(k@) {
            let q = choose|q: int| 0 <= q < keys_of(jv_obj(m@)).len() && keys_of(jv_obj(m@))[q] == k@;
            assert(m@[q].0@ == k@);
        }
    }
    false
}

fn strings_equal(a: &Vec<String>, b: &Vec<String>) -> (r: bool)
    ensures
        r == (a.deep_view() == b.deep_view()),
{
    crate::text::strings_eq(a, b)
}

fn key_list_text(k: &Vec<Vec<String>>) -> (r: String)
    ensures
        r@ == join(key_lists(k.deep_view()), " / "@),
{
    let mut parts: Vec<String> = Vec::new();
    let mut i: usize = 0;
    while i < k.len()
        invariant
            i <= k.len(),
            parts.len() == i,
            forall|q: int| 0 <= q < i ==> #[trigger] parts@[q]@ == join(k@[q].deep_view(), "+"@),
        decreases k.len() - i,
    {
        parts.push(join_strings(&k[i], "+"));
        i += 1;
    }
    assert(parts.deep_view() =~= key_lists(k.deep_view()));
    join_strings(&parts, " / ")
}

/// The INSERT .. ON CONFLICT statement and parameters of an upsert.
pub fn upsert_plan(t: &Table, body: &Json) -> (r: Result<(String, Vec<SqlVal>), ApiError>)
    ensures
        match r {
            Ok((s, ps)) => upsert_plan_spec(*t, body@) == Ok::<(Seq<char>, Seq<SqlV>), ErrV>((s@, sql_view(ps@))),
            Err(e) => upsert_plan_spec(*t, body@) == Err::<(Seq<char>, Seq<SqlV>), ErrV>(e@),
        },
{
    let obj = crate::value::body_to_object(body)?;
    let conflict: Vec<String> = match crate::json::value_get(body, "conflictBy") {
        Some(Json::Array(a)) => str_members_exec(a),
        Some(Json::Str(s)) => {
            let mut v: Vec<String> = Vec::new();
            v.push(copy_string(s));
            assert(v.deep_view() =~= seq![s@]);
            v
        },
        _ => {
            let v: Vec<String> = Vec::new();
            assert(v.deep_view() =~= Seq::<Seq<char>>::empty());
            v
        },
    };
    assert(conflict.deep_view() == conflict_of(body@));
    if conflict.len() == 0 {
        return Err(ApiError::param("upsert 需要 conflictBy（指定唯一键列）"));
    }
    let mut known = false;
    let mut i: usize = 0;
    while i < t.unique_keys.len()
        invariant
            i <= t.unique_keys.len(),
            known == exists|q: int| 0 <= q < i && #[trigger] t.unique_keys@[q].deep_view() == conflict.deep_view(),
        decreases t.unique_keys.len() - i,
    {
        if strings_equal(&t.unique_keys[i], &conflict) {
            known = true;
        }
        i += 1;
    }
    assert(known == t.unique_keys.deep_view().contains(conflict.deep_view())) by {
        if known {
            let q = choose|q: int| 0 <= q < t.unique_keys.len() && #[trigger] t.unique_keys@[q].deep_view() == conflict.deep_view();
            assert(t.unique_keys.deep_view()[q] == conflict.deep_view());
        }
        if t.unique_keys.deep_view().contains(conflict.deep_view()) {
            let q = choose|q: int| 0 <= q < t.unique_keys.deep_view().len() && t.unique_keys.deep_view()[q] == conflict.deep_view();
            assert(t.unique_keys@[q].deep_view() == conflict.deep_view());
        }
    }
    if !known {
        let a = join_strings(&conflict, "+");
        let b = key_list_text(&t.unique_keys);
        let m1 = cat3("conflictBy ", a.as_str(), " 不是表 ");
        let m2 = cat3(m1.as_str(), t.name.as_str(), " 已声明的唯一键，可用: ");
        let m = cat(m2.as_str(), b.as_str());
        return Err(ApiError::param(m.as_str()));
    }
    let data = without_exec(obj, "conflictBy");
    let mut j: usize = 0;
    assert(conflict.deep_view().subrange(0, conflict.len() as int) =~= conflict.deep_view());
    while j < conflict.len()
        invariant
            j <= conflict.len(),
            body@ == JsonV::Object(jv_obj(obj@)),
            conflict.deep_view() == conflict_of(body@),
            conflict.len() > 0,
            t.unique_keys.deep_view().contains(conflict.deep_view()),
            jv_obj(data@) == without(jv_obj(obj@), "conflictBy"@),
            first_missing(conflict.deep_view(), keys_of(jv_obj(data@))) == first_missing(
                conflict.deep_view().subrange(j as int, conflict.len() as int),
                keys_of(jv_obj(data@)),
            ),
        decreases conflict.len() - j,
    {
        let ghost rest = conflict.deep_view().subrange(j as int, conflict.len() as int);
        assert(rest.drop_first() =~= conflict.deep_view().subrange(j + 1, conflict.len() as int));
        assert(rest[0] == conflict@[j as int]@);
        if !has_key(&data, conflict[j].as_str()) {
            let m = cat("upsert 缺少唯一键字段 ", conflict[j].as_str());
            return Err(ApiError::param(m.as_str()));
        }
        j += 1;
    }
    assert(conflict.deep_view().subrange(conflict.len() as int, conflict.len() as int) =~= Seq::<Seq<char>>::empty());
    let writes = collect_writes(t, &data, true)?;
    let (cols, vals) = split_writes(writes);
    Ok((insert_sql(t, &cols, Some(&conflict)), vals))
}

/// Whole-row replacement: every given column (an auto-increment key is ignored), the
/// first refused value stopping at once.
pub open spec fn replace_acc(t: Table, m: Seq<(Seq<char>, JsonV)>) -> Result<Seq<(Seq<char>, SqlV)>, ErrV>
    decreases m.len(),
{
    if m.len() == 0 {
        Ok(Seq::empty())
    } else {
        match replace_acc(t, m.drop_last()) {
            Err(e) => Err(e),
            Ok(w) => {
                let (k, v) = m.last();
                match t.col(k) {
                    None => Err(e_unknown_column(t.name@, k, col_names(t.columns@))),
                    Some(c) => if c.primary_key && c.auto_increment {
                        Ok(w)
                    } else {
                        match json_to_sql_spec(c, v) {
                            Ok(x) => Ok(w.push((k, x))),
                            Err(e) => Err(e),
                        }
                    },
                }
            },
        }
    }
}

/// The nullable columns without a default that a replacement does not give: set to NULL.
pub open spec fn null_fills(cols: Seq<Column>, provided: Seq<Seq<char>>) -> Seq<(Seq<char>, SqlV)>
    decreases cols.len(),
{
    if cols.len() == 0 {
        Seq::empty()
    } else {
        let c = cols.last();
        let rest = null_fills(cols.drop_last(), provided);
        if c.primary_key || c.auto_increment || c.not_null {
            rest
        } else if !provided.contains(c.name@) && c.default is None {
            rest.push((c.name@, SqlV::Null))
        } else {
            rest
        }
    }
}

pub open spec fn replace_writes(t: Table, m: Seq<(Seq<char>, JsonV)>) -> Result<Seq<(Seq<char>, SqlV)>, ErrV> {
    match replace_acc(t, m) {
        Err(e) => Err(e),
        Ok(w) => Ok(w + null_fills(t.columns@, keys_of(m))),
    }
}

/// `updated_at` / `updated_date`, when the table has them and the write does not set them.
pub open spec fn auto_sets(t: Table, w: Seq<(Seq<char>, SqlV)>) -> Seq<Seq<char>> {
    let a = if t.col("updated_at"@) is Some && !write_names(w).contains("updated_at"@) {
        seq![qi("updated_at"@) + " = datetime('now','localtime')"@]
    } else {
        Seq::empty()
    };
    let b = if t.col("updated_date"@) is Some && !write_names(w).contains("updated_date"@) {
        seq![qi("updated_date"@) + " = datetime('now','localtime')"@]
    } else {
        Seq::empty()
    };
    a + b
}

pub open spec fn set_list(t: Table, w: Seq<(Seq<char>, SqlV)>) -> Seq<Seq<char>> {
    write_names(w).map_values(|c: Seq<char>| qi(c) + " = ?"@) + auto_sets(t, w)
}

/// The UPDATE statement and parameters for a body (`full_replace`: unlisted nullable
/// columns become NULL), restricted by `where_sql` and its parameters.
pub open spec fn update_plan_spec(t: Table, body: JsonV, where_sql: Seq<char>, where_params: Seq<SqlV>, full_replace: bool) -> Result<(Seq<char>, Seq<SqlV>), ErrV> {
    match body {
        JsonV::Object(m) => match (if full_replace {
            replace_writes(t, m)
        } else {
            writes_spec(t, m, false)
        }) {
            Err(e) => Err(e),
            Ok(w) => if w.len() == 0 {
                Err(e_param("没有可更新的字段"@))
            } else {
                Ok((
                    "UPDATE "@ + qi(t.name@) + " SET "@ + join(set_list(t, w), ", "@) + " WHERE "@ + where_sql,
                    write_values(w) + where_params,
                ))
            },
        },
        _ => Err(e_param("请求体必须是 JSON 对象"@)),
    }
}

proof fn lemma_replace_prefix_err(t: Table, m: Seq<(Seq<char>, JsonV)>, k: int)
    requires
        0 <= k <= m.len(),
        replace_acc(t, m.subrange(0, k)) is Err,
    ensures
        replace_acc(t, m) == replace_acc(t, m.subrange(0, k)),
    decreases m.len() - k,
{
    if k < m.len() {
        assert(m.subrange(0, k + 1).drop_last() =~= m.subrange(0, k));
        lemma_replace_prefix_err(t, m, k + 1);
    } else {
        assert(m.subrange(0, k) =~= m);
    }
}

fn replace_writes_exec(t: &Table, m: &Vec<(String, Json)>) -> (r: Result<Vec<(String, SqlVal)>, ApiError>)
    ensures
        match r {
            Ok(w) => replace_writes(*t, jv_obj(m@)) == Ok::<Seq<(Seq<char>, SqlV)>, ErrV>(writes_view(w@)),
            Err(e) => replace_writes(*t, jv_obj(m@)) == Err::<Seq<(Seq<char>, SqlV)>, ErrV>(e@),
        },
{
    proof {
        lemma_jv_obj(m@);
    }
    let ghost mv = jv_obj(m@);
    let mut w: Vec<(String, SqlVal)> = Vec::new();
    let mut provided: Vec<String> = Vec::new();
    let mut i: usize = 0;
    assert(mv.subrange(0, 0) =~= Seq::<(Seq<char>, JsonV)>::empty());
    assert(writes_view(w@) =~= Seq::<(Seq<char>, SqlV)>::empty());
    assert(provided.deep_view() =~= keys_of(mv.subrange(0, 0)));
    while i < m.len()
        invariant
            i <= m.len(),
            mv == jv_obj(m@),
            mv.len() == m.len(),
            forall|q: int| 0 <= q < m.len() ==> #[trigger] mv[q] == (m@[q].0@, jv(m@[q].1)),
            replace_acc(*t, mv.subrange(0, i as int)) == Ok::<Seq<(Seq<char>, SqlV)>, ErrV>(writes_view(w@)),
            provided.deep_view() == keys_of(mv.subrange(0, i as int)),
        decreases m.len() - i,
    {
        let ghost sub = mv.subrange(0, i + 1);
        assert(sub.drop_last() =~= mv.subrange(0, i as int));
        assert(sub.last() == mv[i as int]);
        let k = &m[i].0;
        let ghost pb = provided.deep_view();
        provided.push(copy_string(k));
        assert(provided.deep_view() =~= pb.push(k@));
        assert(keys_of(sub) =~= keys_of(mv.subrange(0, i as int)).push(k@));
        let col = match t.column(k.as_str()) {
            Some(c) => c,
            None => {
                proof {
                    lemma_replace_prefix_err(*t, mv, i + 1);
                }
                return Err(ApiError::unknown_column(t.name.as_str(), k.as_str(), t.column_names()));
            },
        };
        if !(col.primary_key && col.auto_increment) {
            match json_to_sql(col, &m[i].1) {
                Ok(x) => {
                    let ghost before = writes_view(w@);
                    let ghost xv = x@;
                    w.push((copy_string(k), x));
                    assert(writes_view(w@) =~= before.push((k@, xv)));
                },
                Err(e) => {
                    proof {
                        lemma_replace_prefix_err(*t, mv, i + 1);
                    }
                    return Err(e);
                },
            }
        }
        i += 1;
    }
    assert(mv.subrange(0, m.len() as int) =~= mv);
    let ghost base = writes_view(w@);
    let mut c: usize = 0;
    assert(t.columns@.subrange(0, 0) =~= Seq::<Column>::empty());
    assert(base + null_fills(t.columns@.subrange(0, 0), provided.deep_view()) =~= base);
    while c < t.columns.len()
        invariant
            c <= t.columns.len(),
            provided.deep_view() == keys_of(mv),
            writes_view(w@) == base + null_fills(t.columns@.subrange(0, c as int), provided.deep_view()),
        decreases t.columns.len() - c,
    {
        let ghost sub = t.columns@.subrange(0, c + 1);
        assert(sub.drop_last() =~= t.columns@.subrange(0, c as int));
        let col = &t.columns[c];
        if !(col.primary_key || col.auto_increment || col.not_null) {
            if !crate::text::contains_str(&provided, col.name.as_str()) && col.default.is_none() {
                let ghost before = writes_view(w@);
                w.push((copy_string(&col.name), SqlVal::Null));
                assert(writes_view(w@) =~= before.push((col.name@, SqlV::Null)));
            }
        }
        c += 1;
    }
    assert(t.columns@.subrange(0, t.columns.len() as int) =~= t.columns@);
    Ok(w)
}

fn has_write(w: &Vec<(String, SqlVal)>, name: &str) -> (r: bool)
    ensures
        r == write_names(writes_view(w@)).contains(name@),
{
    let names = names_of(w);
    crate::text::contains_str(&names, name)
}

/// The UPDATE statement and parameters of a body for the rows `where_sql` selects.
pub fn update_plan(t: &Table, body: &Json, where_sql: &str, where_params: Vec<SqlVal>, full_replace: bool) -> (r: Result<(String, Vec<SqlVal>), ApiError>)
    ensures
        match r {
            Ok((s, ps)) => update_plan_spec(*t, body@, where_sql@, sql_view(where_params@), full_replace) == Ok::<(Seq<char>, Seq<SqlV>), ErrV>(
                (s@, sql_view(ps@)),
            ),
            Err(e) => update_plan_spec(*t, body@, where_sql@, sql_view(where_params@), full_replace) == Err::<(Seq<char>, Seq<SqlV>), ErrV>(e@),
        },
{
    let obj = crate::value::body_to_object(body)?;
    let writes = if full_replace {
        replace_writes_exec(t, obj)?
    } else {
        collect_writes(t, obj, false)?
    };
    if writes.len() == 0 {
        return Err(ApiError::param("没有可更新的字段"));
    }
    let ghost wv = writes_view(writes@);
    let mut sets: Vec<String> = Vec::new();
    let mut i: usize = 0;
    while i < writes.len()
        invariant
            i <= writes.len(),
            sets.len() == i,
            forall|q: int| 0 <= q < i ==> #[trigger] sets@[q]@ == qi(writes@[q].0@) + " = ?"@,
        decreases writes.len() - i,
    {
        let q = quote_ident(writes[i].0.as_str());
        sets.push(cat(q.as_str(), " = ?"));
        i += 1;
    }
    assert(sets.deep_view() =~= write_names(wv).map_values(|c: Seq<char>| qi(c) + " = ?"@));
    let ghost s0 = sets.deep_view();
    let has_at = t.column("updated_at").is_some() && !has_write(&writes, "updated_at");
    if has_at {
        let q = quote_ident("updated_at");
        sets.push(cat(q.as_str(), " = datetime('now','localtime')"));
    }
    let ghost s1 = sets.deep_view();
    let has_date = t.column("updated_date").is_some() && !has_write(&writes, "updated_date");
    if has_date {
        let q = quote_ident("updated_date");
        sets.push(cat(q.as_str(), " = datetime('now','localtime')"));
    }
    assert(sets.deep_view() =~= set_list(*t, wv));
    let j = join_strings(&sets, ", ");
    let tn = quote_ident(t.name.as_str());
    let a = cat3("UPDATE ", tn.as_str(), " SET ");
    let b = cat3(a.as_str(), j.as_str(), " WHERE ");
    let sql = cat(b.as_str(), where_sql);
    let (_, mut vals) = split_writes(writes);
    let ghost v0 = sql_view(vals@);
    let mut wp = where_params;
    let mut k: usize = 0;
    let n = wp.len();
    assert(v0 + sql_view(wp@).subrange(0, 0) =~= v0);
    while k < n
        invariant
            k <= n,
            n == wp.len(),
            sql_view(wp@) == sql_view(where_params@),
            sql_view(vals@) == v0 + sql_view(wp@).subrange(0, k as int),
        decreases n - k,
    {
        let ghost before = sql_view(vals@);
        vals.push(crate::value::clone_sql(&wp[k]));
        assert(sql_view(vals@) =~= before.push(wp@[k as int]@));
        assert(v0 + sql_view(wp@).subrange(0, k + 1) =~= (v0 + sql_view(wp@).subrange(0, k as int)).push(sql_view(wp@)[k as int]));
        k += 1;
    }
    assert(sql_view(wp@).subrange(0, n as int) =~= sql_view(wp@));
    Ok((sql, vals))
}

// ---------------------------------------------------------------------------
// Batch inserts
// ---------------------------------------------------------------------------

/// Whether a batch stops at its first failure (any `mode` but `relaxed`).
pub open spec fn strict_of(body: JsonV) -> bool {
    match crate::json::as_str(crate::json::get(body, "mode"@)) {
        Some(m) => m != "relaxed"@,
        None => true,
    }
}

/// The rows of a batch insert and its mode, or why the request is refused.
pub open spec fn batch_spec(body: JsonV) -> Result<(Seq<JsonV>, bool), ErrV> {
    match crate::json::get(body, "items"@) {
        Some(JsonV::Array(items)) => if items.len() > crate::query::parse::MAX_BATCH {
            Err(crate::error::e_over_limit("批量上限 1000 行，收到 "@ + crate::text::nat_text(items.len())))
        } else if items.len() == 0 {
            Err(e_param("items 为空"@))
        } else {
            Ok((items, strict_of(body)))
        },
        _ => Err(e_param("请求体需要 { \"items\": [ ... ] }"@)),
    }
}

/// Reads a batch-insert body: its rows (at most 1000, at least one) and its mode.
pub fn batch_request(body: &Json) -> (r: Result<(&Vec<Json>, bool), ApiError>)
    ensures
        match r {
            Ok((items, strict)) => batch_spec(body@) == Ok::<(Seq<JsonV>, bool), ErrV>((crate::json::jv_seq(items@), strict)),
            Err(e) => batch_spec(body@) == Err::<(Seq<JsonV>, bool), ErrV>(e@),
        },
{
    let items = match crate::json::value_get(body, "items") {
        Some(Json::Array(a)) => a,
        _ => return Err(ApiError::param("请求体需要 { \"items\": [ ... ] }")),
    };
    proof {
        crate::json::lemma_jv_seq(items@);
    }
    if items.len() > crate::query::parse::MAX_BATCH {
        let n = crate::text::usize_text(items.len());
        let m = cat("批量上限 1000 行，收到 ", n.as_str());
        return Err(ApiError::over_limit(m.as_str()));
    }
    if items.len() == 0 {
        return Err(ApiError::param("items 为空"));
    }
    let strict = match crate::json::value_get(body, "mode") {
        Some(Json::Str(m)) => !str_eq(m.as_str(), "relaxed"),
        _ => true,
    };
    Ok((items, strict))
}

/// The INSERT of the `index`-th row of a batch.
pub open spec fn batch_item_spec(t: Table, index: nat, item: JsonV) -> Result<(Seq<char>, Seq<SqlV>), ErrV> {
    match item {
        JsonV::Object(m) => match writes_spec(t, m, true) {
            Err(e) => Err(e),
            Ok(w) => Ok((insert_sql_spec(t, write_names(w), None), write_values(w))),
        },
        _ => Err(e_param("items["@ + crate::text::nat_text(index) + "] 不是对象"@)),
    }
}

pub fn batch_item_plan(t: &Table, index: usize, item: &Json) -> (r: Result<(String, Vec<SqlVal>), ApiError>)
    ensures
        match r {
            Ok((s, ps)) => batch_item_spec(*t, index as nat, item@) == Ok::<(Seq<char>, Seq<SqlV>), ErrV>((s@, sql_view(ps@))),
            Err(e) => batch_item_spec(*t, index as nat, item@) == Err::<(Seq<char>, Seq<SqlV>), ErrV>(e@),
        },
{
    match item {
        Json::Object(m) => {
            let writes = collect_writes(t, m, true)?;
            let (cols, vals) = split_writes(writes);
            Ok((insert_sql(t, &cols, None), vals))
        },
        _ => {
            let n = crate::text::usize_text(index);
            let m = cat3("items[", n.as_str(), "] 不是对象");
            Err(ApiError::param(m.as_str()))
        },
    }
}

/// What a batch insert has done so far.
#[derive(Debug)]
pub struct BatchOutcome {
    pub inserted: i64,
    pub ids: Vec<i64>,
    pub failed: Vec<Json>,
}

pub open spec fn failure_spec(index: i64, message: Seq<char>) -> JsonV {
    JsonV::Object(seq![("index"@, JsonV::Int(index)), ("error"@, JsonV::Str(message))])
}

impl BatchOutcome {
    pub fn new() -> (r: BatchOutcome)
        ensures
            r.inserted == 0,
            r.ids@ == Seq::<i64>::empty(),
            r.failed@ == Seq::<Json>::empty(),
    {
        BatchOutcome { inserted: 0, ids: Vec::new(), failed: Vec::new() }
    }

    /// A row went in, with this id.
    pub fn record_insert(&mut self, id: i64)
        requires
            old(self).inserted < i64::MAX,
        ensures
            final(self).inserted == old(self).inserted + 1,
            final(self).ids@ == old(self).ids@.push(id),
            final(self).failed@ == old(self).failed@,
    {
        self.inserted = self.inserted + 1;
        self.ids.push(id);
    }

    /// What a failed row does: in strict mode the batch stops with the row's error (the
    /// transaction is rolled back); in relaxed mode the failure is noted and the batch
    /// goes on.
    pub fn on_failure(&mut self, strict: bool, index: usize, e: ApiError) -> (r: Option<ApiError>)
        requires
            index <= i64::MAX,
        ensures
            strict ==> (r matches Some(x) && x@ == e@ && final(self).failed@ == old(self).failed@),
            !strict ==> r is None && crate::json::jv_seq(final(self).failed@) == crate::json::jv_seq(old(self).failed@).push(
                failure_spec(index as i64, e@.message),
            ),
            final(self).inserted == old(self).inserted,
            final(self).ids@ == old(self).ids@,
    {
        if strict {
            return Some(e);
        }
        let mut m: Vec<(String, Json)> = Vec::new();
        m.push((owned("index"), Json::Int(index as i64)));
        m.push((owned("error"), Json::Str(e.message)));
        proof {
            lemma_jv_obj(m@);
            assert(jv_obj(m@) =~= seq![("index"@, JsonV::Int(index as i64)), ("error"@, JsonV::Str(e@.message))]);
        }
        let entry = Json::Object(m);
        proof {
            crate::json::lemma_jv_seq_push(self.failed@, entry);
        }
        self.failed.push(entry);
        None
    }

    /// `{inserted, ids, failed}`.
    pub fn to_json(&self) -> (r: Json)
        ensures
            r@ == JsonV::Object(
                seq![
                    ("inserted"@, JsonV::Int(self.inserted)),
                    ("ids"@, JsonV::Array(self.ids@.map_values(|i: i64| JsonV::Int(i)))),
                    ("failed"@, JsonV::Array(crate::json::jv_seq(self.failed@))),
                ],
            ),
    {
        let mut ids: Vec<Json> = Vec::new();
        let mut i: usize = 0;
        proof {
            crate::json::lemma_jv_seq(ids@);
        }
        while i < self.ids.len()
            invariant
                i <= self.ids.len(),
                crate::json::jv_seq(ids@) == self.ids@.subrange(0, i as int).map_values(|x: i64| JsonV::Int(x)),
            decreases self.ids.len() - i,
        {
            proof {
                crate::json::lemma_jv_seq_push(ids@, Json::Int(self.ids@[i as int]));
            }
            ids.push(Json::Int(self.ids[i]));
            assert(self.ids@.subrange(0, i + 1).map_values(|x: i64| JsonV::Int(x)) =~= self.ids@.subrange(0, i as int).map_values(|x: i64| JsonV::Int(x)).push(JsonV::Int(self.ids@[i as int])));
            i += 1;
        }
        assert(self.ids@.subrange(0, self.ids.len() as int) =~= self.ids@);
        let mut m: Vec<(String, Json)> = Vec::new();
        let ghost idv = crate::json::jv_seq(ids@);
        let failed = crate::json::clone_json_vec(&self.failed);
        let ghost fv = crate::json::jv_seq(failed@);
        m.push((owned("inserted"), Json::Int(self.inserted)));
        m.push((owned("ids"), Json::Array(ids)));
        m.push((owned("failed"), Json::Array(failed)));
        proof {
            lemma_jv_obj(m@);
            assert(jv_obj(m@) =~= seq![
                ("inserted"@, JsonV::Int(self.inserted)),
                ("ids"@, JsonV::Array(idv)),
                ("failed"@, JsonV::Array(fv)),
            ]);
        }
        Json::Object(m)
    }
}

// ---------------------------------------------------------------------------
// Child rows of a listing (`children=`), fetched in one query per child table
// ---------------------------------------------------------------------------

/// The child rows of `n` parents: `SELECT * FROM "ct" WHERE "link" IN (?, ...)`
/// in the order of the child table's key.
pub open spec fn children_sql_spec(ct: Table, link: Seq<char>, n: nat) -> Seq<char> {
    "SELECT * FROM "@ + qi(ct.name@) + " WHERE "@ + qi(link) + " IN ("@ + join(repeat_text("?"@, n), ", "@)
        + ") ORDER BY "@ + qi(crate::routes::pk_or_id(ct)) + " ASC"@
}

pub fn children_sql(ct: &Table, link: &str, n: usize) -> (r: String)
    ensures
        r@ == children_sql_spec(*ct, link@, n as nat),
{
    let qt = quote_ident(ct.name.as_str());
    let ql = quote_ident(link);
    let ph = repeat_join("?", n, ", ");
    let pk = if ct.primary_key.len() == 0 {
        owned("id")
    } else {
        copy_string(&ct.primary_key[0])
    };
    let qk = quote_ident(pk.as_str());
    let a = cat3("SELECT * FROM ", qt.as_str(), " WHERE ");
    let b = cat3(a.as_str(), ql.as_str(), " IN (");
    let c = cat3(b.as_str(), ph.as_str(), ") ORDER BY ");
    let d = cat3(c.as_str(), qk.as_str(), " ASC");
    assert(d@ =~= children_sql_spec(*ct, link@, n as nat));
    d
}

/// The integer keys of the listed rows, in order (rows without one are passed over).
pub open spec fn ids_of(items: Seq<JsonV>, pk: Seq<char>) -> Seq<i64>
    decreases items.len(),
{
    if items.len() == 0 {
        Seq::empty()
    } else {
        match crate::json::get(items.last(), pk) {
            Some(JsonV::Int(i)) => ids_of(items.drop_last(), pk).push(i),
            _ => ids_of(items.drop_last(), pk),
        }
    }
}

pub fn parent_ids(items: &Vec<Json>, pk: &str) -> (r: Vec<i64>)
    ensures
        r@ == ids_of(crate::json::jv_seq(items@), pk@),
{
    proof {
        crate::json::lemma_jv_seq(items@);
    }
    let ghost iv = crate::json::jv_seq(items@);
    let mut out: Vec<i64> = Vec::new();
    let mut i: usize = 0;
    assert(iv.subrange(0, 0) =~= Seq::<JsonV>::empty());
    while i < items.len()
        invariant
            i <= items.len(),
            iv == crate::json::jv_seq(items@),
            iv.len() == items.len(),
            forall|q: int| 0 <= q < items.len() ==> #[trigger] iv[q] == items@[q]@,
            out@ == ids_of(iv.subrange(0, i as int), pk@),
        decreases items.len() - i,
    {
        let ghost sub = iv.subrange(0, i + 1);
        assert(sub.drop_last() =~= iv.subrange(0, i as int));
        assert(sub.last() == items@[i as int]@);
        match crate::json::value_get(&items[i], pk) {
            Some(Json::Int(v)) => {
                out.push(*v);
            },
            _ => {},
        }
        i += 1;
    }
    assert(iv.subrange(0, items.len() as int) =~= iv);
    out
}

/// One child row read back: its parent's key (when the link holds an integer) and
/// its columns as an object.
pub open spec fn child_row_spec(ct: Table, link: Seq<char>, vals: Seq<SqlV>, raw_json: bool) -> (Option<i64>, JsonV) {
    let m = child_members(ct.columns@, vals, raw_json);
    (
        match crate::json::obj_get(m, link) {
            Some(JsonV::Int(i)) => Some(i),
            _ => None,
        },
        JsonV::Object(m),
    )
}

/// The members of a child row, one per column in order (a later member of the
/// same name replaces an earlier one).
pub open spec fn child_members(cols: Seq<Column>, vals: Seq<SqlV>, raw_json: bool) -> Seq<(Seq<char>, JsonV)>
    decreases cols.len(),
{
    if cols.len() == 0 || vals.len() < cols.len() {
        Seq::empty()
    } else {
        crate::query::builder::obj_put(
            child_members(cols.drop_last(), vals, raw_json),
            cols.last().name@,
            crate::value::sql_to_json_spec(cols.last(), vals[cols.len() - 1], raw_json),
        )
    }
}

/// A child row from the values of its columns, in the order of the child table's
/// columns.
pub fn child_row(ct: &Table, link: &str, vals: Vec<SqlVal>, raw_json: bool) -> (r: (Option<i64>, Json))
    requires
        vals.len() == ct.columns.len(),
    ensures
        (r.0, r.1@) == child_row_spec(*ct, link@, sql_view(vals@), raw_json),
{
    let ghost vv = sql_view(vals@);
    let mut m: Vec<(String, Json)> = Vec::new();
    let mut i: usize = 0;
    let mut rest = vals;
    proof {
        lemma_jv_obj(m@);
    }
    assert(ct.columns@.subrange(0, 0) =~= Seq::<Column>::empty());
    while i < ct.columns.len()
        invariant
            i <= ct.columns.len(),
            vv.len() == ct.columns.len(),
            rest@.len() + i == ct.columns.len(),
            forall|q: int| 0 <= q < rest@.len() ==> #[trigger] rest@[q]@ == vv[i + q],
            jv_obj(m@) == child_members(ct.columns@.subrange(0, i as int), vv, raw_json),
        decreases ct.columns.len() - i,
    {
        let ghost sub = ct.columns@.subrange(0, i + 1);
        assert(sub.drop_last() =~= ct.columns@.subrange(0, i as int));
        assert(sub.last() == ct.columns@[i as int]);
        let v = rest.remove(0);
        assert(v@ == vv[i as int]);
        let j = crate::value::sql_to_json(&ct.columns[i], v, raw_json);
        crate::query::builder::obj_put_exec(&mut m, copy_string(&ct.columns[i].name), j);
        assert forall|q: int| 0 <= q < rest@.len() implies #[trigger] rest@[q]@ == vv[i + 1 + q] by {
        }
        i += 1;
    }
    assert(ct.columns@.subrange(0, ct.columns.len() as int) =~= ct.columns@);
    let parent = match crate::json::json_get(&m, link) {
        Some(Json::Int(p)) => Some(*p),
        _ => None,
    };
    (parent, Json::Object(m))
}

/// The children of the parent `id`, in the order they were read.
pub open spec fn rows_of(rows: Seq<(Option<i64>, JsonV)>, id: i64) -> Seq<JsonV>
    decreases rows.len(),
{
    if rows.len() == 0 {
        Seq::empty()
    } else if rows.last().0 == Some(id) {
        rows_of(rows.drop_last(), id).push(rows.last().1)
    } else {
        rows_of(rows.drop_last(), id)
    }
}

pub open spec fn child_rows_view(rows: Seq<(Option<i64>, Json)>) -> Seq<(Option<i64>, JsonV)> {
    rows.map_values(|p: (Option<i64>, Json)| (p.0, p.1@))
}

/// A listed row with its children under `name` (none when it has no integer key).
pub open spec fn with_children(item: JsonV, pk: Seq<char>, name: Seq<char>, rows: Seq<(Option<i64>, JsonV)>) -> JsonV {
    match item {
        JsonV::Object(m) => JsonV::Object(
            crate::query::builder::obj_put(
                m,
                name,
                JsonV::Array(
                    match crate::json::obj_get(m, pk) {
                        Some(JsonV::Int(i)) => rows_of(rows, i),
                        _ => Seq::empty(),
                    },
                ),
            ),
        ),
        other => other,
    }
}

fn children_of(rows: &Vec<(Option<i64>, Json)>, id: i64) -> (r: Vec<Json>)
    ensures
        crate::json::jv_seq(r@) == rows_of(child_rows_view(rows@), id),
{
    let ghost rv = child_rows_view(rows@);
    let mut out: Vec<Json> = Vec::new();
    let mut i: usize = 0;
    assert(rv.subrange(0, 0) =~= Seq::<(Option<i64>, JsonV)>::empty());
    proof {
        crate::json::lemma_jv_seq(out@);
    }
    while i < rows.len()
        invariant
            i <= rows.len(),
            rv == child_rows_view(rows@),
            rv.len() == rows.len(),
            crate::json::jv_seq(out@) == rows_of(rv.subrange(0, i as int), id),
        decreases rows.len() - i,
    {
        let ghost sub = rv.subrange(0, i + 1);
        assert(sub.drop_last() =~= rv.subrange(0, i as int));
        assert(sub.last() == (rows@[i as int].0, rows@[i as int].1@));
        if rows[i].0 == Some(id) {
            let ghost prev = out@;
            out.push(clone_json(&rows[i].1));
            proof {
                crate::json::lemma_jv_seq_push(prev, out@.last());
                assert(prev.push(out@.last()) =~= out@);
            }
        }
        i += 1;
    }
    assert(rv.subrange(0, rows.len() as int) =~= rv);
    out
}

/// Puts under `name` in each listed row the child rows whose parent is that row.
pub fn attach_children(items: &mut Vec<Json>, pk: &str, name: &str, rows: &Vec<(Option<i64>, Json)>)
    ensures
        crate::json::jv_seq(final(items)@) == crate::json::jv_seq(old(items)@).map_values(
            |it: JsonV| with_children(it, pk@, name@, child_rows_view(rows@)),
        ),
{
    proof {
        crate::json::lemma_jv_seq(items@);
    }
    let ghost before = crate::json::jv_seq(items@);
    let ghost f = |it: JsonV| with_children(it, pk@, name@, child_rows_view(rows@));
    let mut done: Vec<Json> = Vec::new();
    while items.len() > 0
        invariant
            before.len() == done.len() + items.len(),
            f == (|it: JsonV| with_children(it, pk@, name@, child_rows_view(rows@))),
            forall|q: int| 0 <= q < items.len() ==> #[trigger] items@[q]@ == before[done.len() + q],
            forall|q: int| 0 <= q < done.len() ==> #[trigger] done@[q]@ == f(before[q]),
        decreases items.len(),
    {
        let ghost k = done.len();
        let it = items.remove(0);
        assert(it@ == before[k as int]);
        let next = match it {
            Json::Object(mut m) => {
                let kids = match crate::json::json_get(&m, pk) {
                    Some(Json::Int(id)) => children_of(rows, *id),
                    _ => Vec::new(),
                };
                proof {
                    crate::json::lemma_jv_seq(kids@);
                }
                let ghost mv = jv_obj(m@);
                crate::query::builder::obj_put_exec(&mut m, owned(name), Json::Array(kids));
                Json::Object(m)
            },
            other => other,
        };
        assert(next@ == f(before[k as int]));
        done.push(next);
        assert forall|q: int| 0 <= q < items.len() implies #[trigger] items@[q]@ == before[done.len() + q] by {
        }
    }
    let ghost dv = done@;
    assert(dv.len() == before.len());
    *items = done;
    proof {
        crate::json::lemma_jv_seq(items@);
    }
    assert forall|q: int| 0 <= q < items.len() implies #[trigger] crate::json::jv_seq(items@)[q] == before.map_values(f)[q] by {
        assert(items@[q] == dv[q]);
        assert(dv[q]@ == f(before[q]));
    }
    assert(crate::json::jv_seq(items@) =~= before.map_values(f));
}

// ---------------------------------------------------------------------------
// Small helpers
// ---------------------------------------------------------------------------

/// An equality test on one column (to find a row by id or by a unique key).
pub fn eq_cond(t: &Table, column: &str, v: Json) -> (r: Result<Cond, ApiError>)
    ensures
        match r {
            Ok(c) => t.col(column@) is Some && c@ == CondV::Leaf(LeafV { column: column@, op: Op::Eq, values: seq![v@] }),
            Err(e) => t.col(column@) is None && e@ == e_unknown_column(t.name@, column@, col_names(t.columns@)),
        },
{
    t.require_column(column)?;
    let mut vals: Vec<Json> = Vec::new();
    let ghost vv = v@;
    vals.push(v);
    proof {
        crate::json::lemma_jv_seq_push(Seq::empty(), vals@[0]);
        assert(Seq::<Json>::empty().push(vals@[0]) =~= vals@);
    }
    Ok(Cond::Leaf(Leaf::new(owned(column), Op::Eq, vals)))
}

/// Parameters a caller may add to a condition (none are used).
#[derive(Debug, Default)]
pub struct ContextParams;

/// The WHERE text and parameters of an optional condition (`1 = 1` for none).
pub fn cond_to_parts(t: &Table, reg: &Registry, cond: Option<Cond>, extra: ContextParams) -> (r: Result<(String, Vec<SqlVal>), ApiError>)
    ensures
        match r {
            Ok((s, ps)) => match cond {
                Some(c) => cond_sql(*t, *reg, t.name@, c@) == Ok::<(Seq<char>, Seq<SqlV>), ErrV>((s@, sql_view(ps@))),
                None => s@ == "1 = 1"@ && ps@ == Seq::<SqlVal>::empty(),
            },
            Err(e) => match cond {
                Some(c) => cond_sql(*t, *reg, t.name@, c@) == Err::<(Seq<char>, Seq<SqlV>), ErrV>(e@),
                None => false,
            },
        },
{
    let mut params: Vec<SqlVal> = Vec::new();
    let sql = match &cond {
        Some(c) => {
            let w = render_cond(t, reg, t.name.as_str(), c, &mut params)?;
            assert(sql_view(params@) =~= Seq::<SqlV>::empty() + cond_sql(*t, *reg, t.name@, c@)->Ok_0.1);
            w
        },
        None => owned("1 = 1"),
    };
    Ok((sql, params))
}

pub open spec fn parse_id_spec(raw: Seq<char>) -> Result<i64, ErrV> {
    match i64_of_text(raw) {
        Some(v) => Ok(v),
        None => Err(e_param("主键必须是整数: "@ + raw)),
    }
}

/// A primary key written in a path.
pub fn parse_id(raw: &str) -> (r: Result<i64, ApiError>)
    ensures
        match r {
            Ok(v) => parse_id_spec(raw@) == Ok::<i64, ErrV>(v),
            Err(e) => parse_id_spec(raw@) == Err::<i64, ErrV>(e@),
        },
{
    let cs = chars_of(raw);
    match parse_i64_chars(&cs) {
        Some(v) => Ok(v),
        None => {
            let m = cat("主键必须是整数: ", raw);
            Err(ApiError::param(m.as_str()))
        },
    }
}

/// Ascending order by the primary key columns.
pub fn default_order(t: &Table) -> (r: Vec<OrderBy>)
    ensures
        orders_view(r@) == t.primary_key.deep_view().map_values(
            |k: Seq<char>| OrderByV { column: k, direction: "ASC"@, nulls_last: false },
        ),
{
    let mut out: Vec<OrderBy> = Vec::new();
    let mut i: usize = 0;
    proof {
        reveal_strlit("ASC");
    }
    while i < t.primary_key.len()
        invariant
            i <= t.primary_key.len(),
            out.len() == i,
            forall|q: int| 0 <= q < i ==> #[trigger] out@[q]@ == (OrderByV { column: t.primary_key@[q]@, direction: "ASC"@, nulls_last: false }),
        decreases t.primary_key.len() - i,
    {
        out.push(OrderBy { column: copy_string(&t.primary_key[i]), direction: owned("ASC"), nulls_last: false });
        i += 1;
    }
    assert(orders_view(out@) =~= t.primary_key.deep_view().map_values(
        |k: Seq<char>| OrderByV { column: k, direction: "ASC"@, nulls_last: false },
    ));
    out
}

/// The request for at most one row: page 1 of size 1, rows rather than a count.
pub fn single_row_spec(spec: &QuerySpec) -> (r: QuerySpec)
    ensures
        r@ == (QuerySpecV { page: Some(1), page_size: Some(1), count_only: false, ..spec@ }),
{
    let mut s = spec.duplicate();
    s.page = Some(1);
    s.page_size = Some(1);
    s.count_only = false;
    s
}
/// A row id written into a path (as `Display` writes it) is read back by `parse_id`.
pub proof fn law_id_text_reads_back(id: i64)
    ensures
        parse_id_spec(crate::text::int_text(id as int)) == Ok::<i64, ErrV>(id),
{
    crate::text::lemma_int_text_reads_back(id);
}

/// No member called `k` is left after `without(m, k)`, and the members left
/// are members of `m`.
pub proof fn law_without_removes(m: Seq<(Seq<char>, JsonV)>, k: Seq<char>)
    ensures
        obj_get(without(m, k), k) is None,
        forall|i: int| 0 <= i < without(m, k).len() ==> m.contains(#[trigger] without(m, k)[i]),
    decreases m.len(),
{
    if m.len() > 0 {
        law_without_removes(m.drop_last(), k);
        let w = without(m, k);
        let w0 = without(m.drop_last(), k);
        assert forall|i: int| 0 <= i < w.len() implies m.contains(#[trigger] w[i]) by {
            if i < w0.len() {
                assert(w[i] == w0[i]);
                let j = choose|j: int| 0 <= j < m.drop_last().len() && m.drop_last()[j] == w0[i];
                assert(m[j] == w0[i]);
            } else {
                assert(w[i] == m.last());
                assert(m[m.len() - 1] == m.last());
            }
        }
    }
    let w = without(m, k);
    crate::json::lemma_obj_get_first(w, k);
    crate::json::lemma_member_at_first(w, k, 0);
    lemma_without_keys(m, k);
}

proof fn lemma_without_keys(m: Seq<(Seq<char>, JsonV)>, k: Seq<char>)
    ensures
        forall|i: int| 0 <= i < without(m, k).len() ==> (#[trigger] without(m, k)[i]).0 != k,
    decreases m.len(),
{
    if m.len() > 0 {
        lemma_without_keys(m.drop_last(), k);
        let w = without(m, k);
        let w0 = without(m.drop_last(), k);
        assert forall|i: int| 0 <= i < w.len() implies (#[trigger] w[i]).0 != k by {
            if i < w0.len() {
                assert(w[i] == w0[i]);
            }
        }
    }
}

/// What fetching the `child` rows of `n` parents takes: a child table that `t`
/// does not list among its `has_many` links is refused first, then one that
/// the whitelist does not hold; else the link column and the SELECT of the
/// children whose link is one of `n` ids.
pub open spec fn children_plan_spec(t: Table, reg: Registry, child: Seq<char>, n: nat) -> Result<(Seq<char>, Seq<char>), ErrV> {
    match crate::routes::child_link_spec(t, child) {
        Err(e) => Err(e),
        Ok(link) => match reg.lookup(child) {
            None => Err(crate::error::e_unknown_table(child, crate::schema::table_names(reg.all()))),
            Some(ct) => Ok((link, children_sql_spec(ct, link, n))),
        },
    }
}

/// The child table, its link column, the SELECT of the children of `ids` and
/// its parameters (the ids, in order), or the refusal of `child`.
pub fn children_plan<'a>(t: &Table, reg: &'a Registry, child: &str, ids: &Vec<i64>) -> (r: Result<(&'a Table, String, String, Vec<SqlVal>), ApiError>)
    ensures
        match r {
            Ok((ct, link, sql, ps)) => children_plan_spec(*t, *reg, child@, ids.len() as nat) == Ok::<(Seq<char>, Seq<char>), ErrV>((link@, sql@))
                && reg.lookup(child@) == Some(*ct) && sql_view(ps@) == ids@.map_values(|i: i64| SqlV::Integer(i)),
            Err(e) => children_plan_spec(*t, *reg, child@, ids.len() as nat) == Err::<(Seq<char>, Seq<char>), ErrV>(e@),
        },
{
    let link = crate::routes::child_link(t, child)?;
    let ct = reg.table(child)?;
    let sql = children_sql(ct, link.as_str(), ids.len());
    let mut ps: Vec<SqlVal> = Vec::new();
    let mut i: usize = 0;
    while i < ids.len()
        invariant
            i <= ids.len(),
            sql_view(ps@) == ids@.subrange(0, i as int).map_values(|x: i64| SqlV::Integer(x)),
        decreases ids.len() - i,
    {
        let ghost before = sql_view(ps@);
        ps.push(SqlVal::Integer(ids[i]));
        assert(sql_view(ps@) =~= before.push(SqlV::Integer(ids@[i as int])));
        assert(ids@.subrange(0, i + 1).map_values(|x: i64| SqlV::Integer(x)) =~= ids@.subrange(0, i as int).map_values(
            |x: i64| SqlV::Integer(x),
        ).push(SqlV::Integer(ids@[i as int])));
        i += 1;
    }
    assert(ids@.subrange(0, ids.len() as int) =~= ids@);
    Ok((ct, link, sql, ps))
}

/// The parents whose children a listing attaches: none unless children are
/// asked for; else the key column (the first primary-key column, `id` without
/// one) and the integer keys of the listed rows, none when there are none.
pub open spec fn attach_targets_spec(t: Table, children: Seq<Seq<char>>, items: Seq<JsonV>) -> Option<(Seq<char>, Seq<i64>)> {
    if children.len() == 0 {
        None
    } else {
        let pk = crate::routes::pk_or_id(t);
        let ids = ids_of(items, pk);
        if ids.len() == 0 {
            None
        } else {
            Some((pk, ids))
        }
    }
}

pub fn attach_targets(t: &Table, spec: &QuerySpec, items: &Vec<Json>) -> (r: Option<(String, Vec<i64>)>)
    ensures
        match r {
            Some((pk, ids)) => attach_targets_spec(*t, spec@.children, crate::json::jv_seq(items@)) == Some((pk@, ids@)),
            None => attach_targets_spec(*t, spec@.children, crate::json::jv_seq(items@)) is None,
        },
{
    if spec.children.len() == 0 {
        assert(spec@.children.len() == 0);
        return None;
    }
    let pk = if t.primary_key.len() == 0 {
        owned("id")
    } else {
        copy_string(&t.primary_key[0])
    };
    let ids = parent_ids(items, pk.as_str());
    if ids.len() == 0 {
        None
    } else {
        Some((pk, ids))
    }
}

/// The answer of a listing: with `count_only` no row is given, only the page,
/// its size, the total and the number of pages.
pub fn list_answer(spec: &QuerySpec, items: Vec<Json>, total: i64) -> (r: Json)
    requires
        total + crate::query::parse::limit_of(spec.limit, spec.page_size) - 1 <= i64::MAX,
    ensures
        ({
            let limit = crate::query::parse::limit_of(spec.limit, spec.page_size);
            r@ == list_spec(
                if spec.count_only { Seq::empty() } else { crate::json::jv_seq(items@) },
                crate::query::parse::page_of(spec.page) as i64,
                limit as i64,
                total,
                pages_of(total as int, limit) as i64,
            )
        }),
{
    let limit = spec.effective_limit();
    let page = spec.page();
    if spec.count_only {
        let none: Vec<Json> = Vec::new();
        assert(crate::json::jv_seq(none@) =~= Seq::<JsonV>::empty());
        list_result(none, page, limit, total)
    } else {
        list_result(items, page, limit, total)
    }
}

} // verus!
