//! What the HTTP handlers decide, apart from running statements: which row a path
//! names, the child link, the equality columns of a query string, the bodies of the
//! batch requests, the SQL of deletes and of their dry run, the CSV export, and the
//! origins that may call the API.

use crate::crud::{
    eq_cond, insert_plan, insert_plan_spec, parse_id, parse_id_spec, update_plan, update_plan_spec, without, without_exec,
};
use crate::error::{
    collect, e_not_found, e_over_limit, e_param, err, lemma_collect_all, lemma_collect_prefix_err, lemma_collect_step,
    ApiError, ErrV,
};
use crate::json::{
    clone_json, clone_json_obj, count_json, count_value, get, json_text, obj_get, jv_obj, jv_seq, lemma_jv_obj, lemma_jv_seq, to_json_text, value_get, Json,
    JsonV,
};
use crate::query::ast::{
    cond_sql, cv, cv_seq, lemma_cv_seq_push, qi, quote_ident, render_cond, repeat_join, repeat_text, Cond, CondV,
};
use crate::query::builder::{obj_put, obj_put_exec, OutputCol, OutputColV};
use crate::query::parse::{float_word, form_pairs, is_float_word, urlencoded_pairs, QuerySpec, QuerySpecV, MAX_BATCH, MAX_PAGE_SIZE};
use crate::schema::{first_has_many, has_many_names, pairs_view, Column, HasMany, Registry, Table};
use crate::text::{
    cat, cat3, chars_of, contains_char, copy_string, dedup, ends_with, float_literal, has_prefix, has_suffix, i64_of_text,
    is_float_literal, join, join_strings, owned, parse_i64_chars, seq_lt, slice_chars, starts_with, str_eq, str_lt,
    string_of,
};
use crate::value::{sql_view, SqlV, SqlVal};
use vstd::prelude::*;

verus! {

// ---------------------------------------------------------------------------
// The row a path names
// ---------------------------------------------------------------------------

/// The key column of a row named in a path: the first primary key column.
pub open spec fn pk_of(t: Table) -> Result<Seq<char>, ErrV> {
    if t.primary_key@.len() == 0 {
        Err(e_param("表 "@ + t.name@ + " 没有单一主键"@))
    } else {
        Ok(t.primary_key@[0]@)
    }
}

pub fn single_pk(t: &Table) -> (r: Result<String, ApiError>)
    ensures
        match r {
            Ok(k) => pk_of(*t) == Ok::<Seq<char>, ErrV>(k@),
            Err(e) => pk_of(*t) == Err::<Seq<char>, ErrV>(e@),
        },
{
    if t.primary_key.len() == 0 {
        let m = cat3("表 ", t.name.as_str(), " 没有单一主键");
        return Err(ApiError::param(m.as_str()));
    }
    Ok(copy_string(&t.primary_key[0]))
}

/// `"pk" = ?` with the id of the path bound to it.
pub open spec fn pk_where_spec(t: Table, id: Seq<char>) -> Result<(Seq<char>, Seq<SqlV>), ErrV> {
    match pk_of(t) {
        Err(e) => Err(e),
        Ok(pk) => match parse_id_spec(id) {
            Err(e) => Err(e),
            Ok(v) => Ok((qi(pk) + " = ?"@, seq![SqlV::Integer(v)])),
        },
    }
}

pub fn pk_where(t: &Table, id: &str) -> (r: Result<(String, Vec<SqlVal>), ApiError>)
    ensures
        match r {
            Ok((s, ps)) => pk_where_spec(*t, id@) == Ok::<(Seq<char>, Seq<SqlV>), ErrV>((s@, sql_view(ps@))),
            Err(e) => pk_where_spec(*t, id@) == Err::<(Seq<char>, Seq<SqlV>), ErrV>(e@),
        },
{
    let pk = single_pk(t)?;
    let v = parse_id(id)?;
    let q = quote_ident(pk.as_str());
    let s = cat(q.as_str(), " = ?");
    let mut ps: Vec<SqlVal> = Vec::new();
    ps.push(SqlVal::Integer(v));
    assert(sql_view(ps@) =~= seq![SqlV::Integer(v)]);
    Ok((s, ps))
}

/// The equality on the key column that finds the row `id`.
pub fn id_condition(t: &Table, pk: &str, id: &str) -> (r: Result<Cond, ApiError>)
    ensures
        match r {
            Ok(c) => parse_id_spec(id@) is Ok && t.col(pk@) is Some && c@ == CondV::Leaf(
                crate::query::ast::LeafV {
                    column: pk@,
                    op: crate::query::ast::Op::Eq,
                    values: seq![JsonV::Int(parse_id_spec(id@)->Ok_0)],
                },
            ),
            Err(e) => match parse_id_spec(id@) {
                Err(pe) => e@ == pe,
                Ok(_) => t.col(pk@) is None && e@ == crate::error::e_unknown_column(
                    t.name@,
                    pk@,
                    crate::schema::col_names(t.columns@),
                ),
            },
        },
{
    let v = parse_id(id)?;
    eq_cond(t, pk, Json::Int(v))
}

/// The column that links the rows of `child` to a row of `t`.
pub open spec fn child_link_spec(t: Table, child: Seq<char>) -> Result<Seq<char>, ErrV> {
    match first_has_many(t.has_many@, child) {
        Some(h) => Ok(h.column@),
        None => Err(
            e_param(
                "表 "@ + t.name@ + " 不存在子表 "@ + child + "，可用: "@ + join(
                    dedup(has_many_names(t.has_many@)),
                    ", "@,
                ),
            ),
        ),
    }
}

pub fn child_link(t: &Table, child: &str) -> (r: Result<String, ApiError>)
    ensures
        match r {
            Ok(c) => child_link_spec(*t, child@) == Ok::<Seq<char>, ErrV>(c@),
            Err(e) => child_link_spec(*t, child@) == Err::<Seq<char>, ErrV>(e@),
        },
{
    match t.child_link(child) {
        Some(h) => Ok(copy_string(&h.column)),
        None => {
            let avail = t.childable();
            let list = join_strings(&avail, ", ");
            let m1 = cat3("表 ", t.name.as_str(), " 不存在子表 ");
            let m2 = cat3(m1.as_str(), child, "，可用: ");
            let m = cat(m2.as_str(), list.as_str());
            assert(m@ == "表 "@ + t.name@ + " 不存在子表 "@ + child@ + "，可用: "@ + join(
                dedup(has_many_names(t.has_many@)),
                ", "@,
            ));
            Err(ApiError::param(m.as_str()))
        },
    }
}

/// A value written in a path, read by the type of its column: an integer for
/// INTEGER and BOOLEAN columns, a number for REAL ones, else (or when it does
/// not read as such) the text itself.
pub open spec fn coerce_spec(col: Column, raw: Seq<char>) -> JsonV {
    if col.ty@ == "INTEGER"@ || col.ty@ == "BOOLEAN"@ {
        match i64_of_text(raw) {
            Some(v) => JsonV::Int(v),
            None => JsonV::Str(raw),
        }
    } else if col.ty@ == "REAL"@ {
        if float_literal(raw) && !float_word(raw) {
            JsonV::Num(raw)
        } else {
            JsonV::Str(raw)
        }
    } else {
        JsonV::Str(raw)
    }
}

pub fn coerce_path_value(col: &Column, raw: &str) -> (r: Json)
    ensures
        r@ == coerce_spec(*col, raw@),
{
    let ty = col.ty.as_str();
    if str_eq(ty, "INTEGER") || str_eq(ty, "BOOLEAN") {
        let cs = chars_of(raw);
        match parse_i64_chars(&cs) {
            Some(v) => Json::Int(v),
            None => Json::Str(owned(raw)),
        }
    } else if str_eq(ty, "REAL") {
        let cs = chars_of(raw);
        if is_float_literal(&cs) && !is_float_word(raw) {
            Json::Num(owned(raw))
        } else {
            Json::Str(owned(raw))
        }
    } else {
        Json::Str(owned(raw))
    }
}

/// The condition of a request narrowed by `extra`: both must hold.
pub open spec fn narrowed(c: Option<CondV>, extra: CondV) -> CondV {
    match c {
        Some(c) => CondV::And(seq![c, extra]),
        None => extra,
    }
}

pub fn add_condition(spec: QuerySpec, extra: Cond) -> (r: QuerySpec)
    ensures
        r@ == (QuerySpecV { cond: Some(narrowed(spec@.cond, extra@)), ..spec@ }),
{
    let mut s = spec;
    let ghost ev = extra@;
    let old_cond = s.cond.take();
    let c = match old_cond {
        Some(c0) => {
            let ghost c0v = c0@;
            let mut v: Vec<Cond> = Vec::new();
            v.push(c0);
            v.push(extra);
            proof {
                lemma_cv_seq_push(Seq::empty(), v@[0]);
                lemma_cv_seq_push(seq![v@[0]], v@[1]);
                assert(Seq::<Cond>::empty().push(v@[0]) =~= seq![v@[0]]);
                assert(seq![v@[0]].push(v@[1]) =~= v@);
                assert(cv_seq(v@) =~= seq![c0v, ev]);
            }
            Cond::And(v)
        },
        None => extra,
    };
    s.cond = Some(c);
    s
}

/// Whether a column alone names at most one row: it is a primary key column or
/// a unique key of its own.
pub open spec fn single_column_key(t: Table, c: Seq<char>) -> bool {
    ||| t.primary_key.deep_view().contains(c)
    ||| exists|j: int| 0 <= j < t.unique_keys@.len() && #[trigger] t.unique_keys.deep_view()[j] == seq![c]
}

pub fn is_single_column(t: &Table, column: &str) -> (r: bool)
    ensures
        r == single_column_key(*t, column@),
{
    let mut i: usize = 0;
    while i < t.primary_key.len()
        invariant
            i <= t.primary_key.len(),
            forall|k: int| 0 <= k < i ==> t.primary_key@[k]@ != column@,
        decreases t.primary_key.len() - i,
    {
        if str_eq(t.primary_key[i].as_str(), column) {
            assert(t.primary_key.deep_view()[i as int] == column@);
            return true;
        }
        i += 1;
    }
    assert(!t.primary_key.deep_view().contains(column@)) by {
        assert forall|k: int| 0 <= k < t.primary_key.deep_view().len() implies t.primary_key.deep_view()[k] != column@ by {
            assert(t.primary_key.deep_view()[k] == t.primary_key@[k]@);
        }
    }
    let mut j: usize = 0;
    while j < t.unique_keys.len()
        invariant
            j <= t.unique_keys.len(),
            forall|k: int| 0 <= k < j ==> #[trigger] t.unique_keys.deep_view()[k] != seq![column@],
        decreases t.unique_keys.len() - j,
    {
        let ghost uk = t.unique_keys.deep_view()[j as int];
        assert(uk == t.unique_keys@[j as int].deep_view());
        if t.unique_keys[j].len() == 1 && str_eq(t.unique_keys[j][0].as_str(), column) {
            assert(uk =~= seq![column@]);
            return true;
        }
        assert(uk != seq![column@]) by {
            if uk == seq![column@] {
                assert(uk[0] == t.unique_keys@[j as int]@[0]@);
            }
        }
        j += 1;
    }
    false
}

/// Whether `provided` holds every column of `k`.
pub open spec fn all_in(k: Seq<Seq<char>>, provided: Seq<Seq<char>>) -> bool {
    forall|i: int| 0 <= i < k.len() ==> provided.contains(#[trigger] k[i])
}

/// Whether the equality columns of a request name a whole unique key, or the
/// single primary key column.
pub open spec fn names_whole_key(t: Table, provided: Seq<Seq<char>>) -> bool {
    ||| exists|j: int| 0 <= j < t.unique_keys@.len() && all_in(#[trigger] t.unique_keys.deep_view()[j], provided)
    ||| t.primary_key@.len() == 1 && provided.contains(t.primary_key@[0]@)
}

fn all_provided(k: &Vec<String>, provided: &Vec<String>) -> (r: bool)
    ensures
        r == all_in(k.deep_view(), provided.deep_view()),
{
    let mut i: usize = 0;
    while i < k.len()
        invariant
            i <= k.len(),
            forall|q: int| 0 <= q < i ==> provided.deep_view().contains(#[trigger] k.deep_view()[q]),
        decreases k.len() - i,
    {
        if !crate::text::contains_str(provided, k[i].as_str()) {
            assert(k.deep_view()[i as int] == k@[i as int]@);
            return false;
        }
        assert(k.deep_view()[i as int] == k@[i as int]@);
        i += 1;
    }
    true
}

pub fn keys_match(t: &Table, provided: &Vec<String>) -> (r: bool)
    ensures
        r == names_whole_key(*t, provided.deep_view()),
{
    let mut j: usize = 0;
    while j < t.unique_keys.len()
        invariant
            j <= t.unique_keys.len(),
            forall|q: int| 0 <= q < j ==> !all_in(#[trigger] t.unique_keys.deep_view()[q], provided.deep_view()),
        decreases t.unique_keys.len() - j,
    {
        assert(t.unique_keys.deep_view()[j as int] == t.unique_keys@[j as int].deep_view());
        if all_provided(&t.unique_keys[j], provided) {
            return true;
        }
        j += 1;
    }
    if t.primary_key.len() == 1 {
        crate::text::contains_str(provided, t.primary_key[0].as_str())
    } else {
        false
    }
}

// ---------------------------------------------------------------------------
// The equality columns of a query string
// ---------------------------------------------------------------------------

/// Keys of a query string that steer the listing rather than filter it.
pub open spec fn control_key(k: Seq<char>) -> bool {
    ||| k == "page"@
    ||| k == "page_size"@
    ||| k == "limit"@
    ||| k == "offset"@
    ||| k == "order_by"@
    ||| k == "select"@
    ||| k == "group_by"@
    ||| k == "agg"@
    ||| k == "expand"@
    ||| k == "children"@
    ||| k == "raw"@
    ||| k == "count_only"@
    ||| k == "q"@
    ||| k == "logic"@
    ||| k == "where"@
}

/// `filter[col]` read as `col`; any other key as it is.
pub open spec fn filter_inner(k: Seq<char>) -> Seq<char> {
    if starts_with(k, "filter["@) && ends_with(k, "]"@) {
        k.subrange(7, k.len() - 1)
    } else {
        k
    }
}

/// Whether `s` has two `_` in a row.
pub open spec fn has_dunder(s: Seq<char>) -> bool {
    exists|i: int| 0 <= i && i + 1 < s.len() && #[trigger] s[i] == '_' && s[i + 1] == '_'
}

/// Keys that are no plain equality on a column: control keys, operators
/// (`col__op`), JSON paths and related columns (`a.b`), and brackets.
pub open spec fn not_equality_key(k: Seq<char>) -> bool {
    control_key(k) || has_dunder(k) || k.contains('.') || k.contains('[')
}

/// The columns a query string tests for equality, in order.
pub open spec fn eq_columns_spec(pairs: Seq<(Seq<char>, Seq<char>)>) -> Seq<Seq<char>>
    decreases pairs.len(),
{
    if pairs.len() == 0 {
        Seq::empty()
    } else {
        let rest = eq_columns_spec(pairs.drop_last());
        let k = filter_inner(pairs.last().0);
        if not_equality_key(k) {
            rest
        } else {
            rest.push(k)
        }
    }
}

fn is_control_key(k: &str) -> (r: bool)
    ensures
        r == control_key(k@),
{
    str_eq(k, "page") || str_eq(k, "page_size") || str_eq(k, "limit") || str_eq(k, "offset") || str_eq(
        k,
        "order_by",
    ) || str_eq(k, "select") || str_eq(k, "group_by") || str_eq(k, "agg") || str_eq(k, "expand") || str_eq(
        k,
        "children",
    ) || str_eq(k, "raw") || str_eq(k, "count_only") || str_eq(k, "q") || str_eq(k, "logic") || str_eq(
        k,
        "where",
    )
}

fn inner_key(k: &str) -> (r: String)
    ensures
        r@ == filter_inner(k@),
{
    let cs = chars_of(k);
    let p = chars_of("filter[");
    let s = chars_of("]");
    proof {
        reveal_strlit("filter[");
        reveal_strlit("]");
    }
    if has_prefix(&cs, &p) && has_suffix(&cs, &s) {
        assert(cs@.len() >= 8) by {
            if cs@.len() == 7 {
                assert(cs@.subrange(0, 7)[6] == '[');
                assert(cs@.subrange(6, 7)[0] == ']');
            }
        }
        let inner = slice_chars(&cs, 7, cs.len() - 1);
        string_of(inner.as_slice())
    } else {
        owned(k)
    }
}

fn not_equality(k: &str) -> (r: bool)
    ensures
        r == not_equality_key(k@),
{
    if is_control_key(k) {
        return true;
    }
    let cs = chars_of(k);
    let mut i: usize = 0;
    while i < cs.len()
        invariant
            i <= cs.len(),
            cs@ == k@,
            forall|q: int| 0 <= q < i ==> cs@[q] != '.' && cs@[q] != '[',
            forall|q: int| 0 <= q < i && q + 1 < cs.len() ==> !(#[trigger] cs@[q] == '_' && cs@[q + 1] == '_'),
        decreases cs.len() - i,
    {
        if cs[i] == '.' || cs[i] == '[' {
            return true;
        }
        if cs[i] == '_' && i + 1 < cs.len() && cs[i + 1] == '_' {
            return true;
        }
        i += 1;
    }
    assert(!k@.contains('.'));
    assert(!k@.contains('['));
    assert(!has_dunder(k@)) by {
        if has_dunder(k@) {
            let q = choose|q: int| 0 <= q && q + 1 < k@.len() && #[trigger] k@[q] == '_' && k@[q + 1] == '_';
            assert(cs@[q] == '_' && cs@[q + 1] == '_');
        }
    }
    false
}

/// The equality columns of decoded query pairs.
pub fn eq_columns_of_pairs(pairs: &Vec<(String, String)>) -> (r: Vec<String>)
    ensures
        r.deep_view() == eq_columns_spec(pairs_view(pairs@)),
{
    let ghost pv = pairs_view(pairs@);
    let mut out: Vec<String> = Vec::new();
    let mut i: usize = 0;
    assert(pv.subrange(0, 0) =~= Seq::<(Seq<char>, Seq<char>)>::empty());
    while i < pairs.len()
        invariant
            i <= pairs.len(),
            pv == pairs_view(pairs@),
            pv.len() == pairs.len(),
            out.deep_view() == eq_columns_spec(pv.subrange(0, i as int)),
        decreases pairs.len() - i,
    {
        let ghost sub = pv.subrange(0, i + 1);
        assert(sub.drop_last() =~= pv.subrange(0, i as int));
        assert(sub.last() == (pairs@[i as int].0@, pairs@[i as int].1@));
        let k = inner_key(pairs[i].0.as_str());
        if !not_equality(k.as_str()) {
            out.push(k);
            assert(out.deep_view() =~= eq_columns_spec(sub));
        }
        i += 1;
    }
    assert(pv.subrange(0, pairs.len() as int) =~= pv);
    out
}

/// The columns a raw query string tests for equality (none without one).
pub fn eq_columns_of_query(raw: Option<&str>) -> (r: Vec<String>)
    ensures
        match raw {
            None => r@.len() == 0,
            Some(s) => r.deep_view() == eq_columns_spec(form_pairs(s@)),
        },
{
    match raw {
        None => Vec::new(),
        Some(s) => {
            let pairs = urlencoded_pairs(s);
            eq_columns_of_pairs(&pairs)
        },
    }
}

// ---------------------------------------------------------------------------
// Origins and unknown paths
// ---------------------------------------------------------------------------

/// The origins that may call the API: `null` (a page opened from a file), any
/// port of the loopback host, and the origins of the desktop shell's webview.
pub open spec fn origin_ok(o: Seq<char>) -> bool {
    ||| o == "null"@
    ||| starts_with(o, "http://127.0.0.1:"@)
    ||| starts_with(o, "http://localhost:"@)
    ||| starts_with(o, "http://[::1]:"@)
    ||| o == "tauri://localhost"@
    ||| o == "http://tauri.localhost"@
    ||| o == "https://tauri.localhost"@
}

pub fn origin_allowed(o: &str) -> (r: bool)
    ensures
        r == origin_ok(o@),
{
    let cs = chars_of(o);
    let p1 = chars_of("http://127.0.0.1:");
    let p2 = chars_of("http://localhost:");
    let p3 = chars_of("http://[::1]:");
    str_eq(o, "null") || has_prefix(&cs, &p1) || has_prefix(&cs, &p2) || has_prefix(&cs, &p3) || str_eq(
        o,
        "tauri://localhost",
    ) || str_eq(o, "http://tauri.localhost") || str_eq(o, "https://tauri.localhost")
}

/// The answer to a path that no route serves.
pub fn unknown_path(path: &str) -> (r: ApiError)
    ensures
        r@ == e_not_found(
            "未知路径 "@ + path@ + "。可用形式：/api/v1/{table}、/api/v1/{table}/{id}、/api/v1/meta/tables"@,
        ),
{
    let m = cat3("未知路径 ", path, "。可用形式：/api/v1/{table}、/api/v1/{table}/{id}、/api/v1/meta/tables");
    ApiError::not_found(m.as_str())
}

// ---------------------------------------------------------------------------
// Batch update
// ---------------------------------------------------------------------------

/// One member of `{items: [...]}`: its integer `id`, and the item itself.
pub open spec fn item_id(it: JsonV) -> Result<(i64, JsonV), ErrV> {
    match get(it, "id"@) {
        Some(JsonV::Int(id)) => Ok((id, it)),
        _ => Err(e_param("items 项缺少 id"@)),
    }
}

/// One member of `{ids: [...], patch: {...}}`: the id, with the shared patch.
pub open spec fn listed_id(v: JsonV, patch: JsonV) -> Result<(i64, JsonV), ErrV> {
    match v {
        JsonV::Int(id) => Ok((id, patch)),
        _ => Err(e_param("ids 必须是整数数组"@)),
    }
}

/// The (id, changes) pairs of a batch update, in order; `items` is read first.
pub open spec fn patch_pairs_spec(body: JsonV) -> Result<Seq<(i64, JsonV)>, ErrV> {
    match get(body, "items"@) {
        Some(JsonV::Array(items)) => collect(items.map_values(|it: JsonV| item_id(it))),
        _ => match (get(body, "ids"@), get(body, "patch"@)) {
            (Some(JsonV::Array(ids)), Some(JsonV::Object(p))) => collect(
                ids.map_values(|v: JsonV| listed_id(v, JsonV::Object(p))),
            ),
            _ => Err(e_param("请求体需要 { ids: [...], patch: {...} } 或 { items: [...] }"@)),
        },
    }
}

/// A batch update: the key column and between one and 1000 (id, changes) pairs.
pub open spec fn patch_request_spec(t: Table, body: JsonV) -> Result<(Seq<char>, Seq<(i64, JsonV)>), ErrV> {
    if t.primary_key@.len() == 0 {
        Err(e_param("该表没有单一主键"@))
    } else {
        match patch_pairs_spec(body) {
            Err(e) => Err(e),
            Ok(ps) => if ps.len() == 0 {
                Err(e_param("没有要更新的记录"@))
            } else if ps.len() > MAX_BATCH {
                Err(e_over_limit("批量上限 1000 行"@))
            } else {
                Ok((t.primary_key@[0]@, ps))
            },
        }
    }
}

pub open spec fn id_pairs_view(s: Seq<(i64, Json)>) -> Seq<(i64, JsonV)> {
    s.map_values(|p: (i64, Json)| (p.0, p.1@))
}

fn item_pairs(items: &Vec<Json>) -> (r: Result<Vec<(i64, Json)>, ApiError>)
    ensures
        match r {
            Ok(ps) => collect(jv_seq(items@).map_values(|it: JsonV| item_id(it))) == Ok::<Seq<(i64, JsonV)>, ErrV>(
                id_pairs_view(ps@),
            ),
            Err(e) => collect(jv_seq(items@).map_values(|it: JsonV| item_id(it))) == Err::<Seq<(i64, JsonV)>, ErrV>(e@),
        },
{
    proof {
        lemma_jv_seq(items@);
    }
    let ghost iv = jv_seq(items@);
    let ghost rs = iv.map_values(|it: JsonV| item_id(it));
    let mut out: Vec<(i64, Json)> = Vec::new();
    let mut i: usize = 0;
    assert(rs.subrange(0, 0) =~= Seq::<Result<(i64, JsonV), ErrV>>::empty());
    assert(id_pairs_view(out@) =~= Seq::<(i64, JsonV)>::empty());
    while i < items.len()
        invariant
            i <= items.len(),
            iv == jv_seq(items@),
            iv.len() == items.len(),
            forall|q: int| 0 <= q < items.len() ==> #[trigger] iv[q] == items@[q]@,
            rs == iv.map_values(|it: JsonV| item_id(it)),
            collect(rs.subrange(0, i as int)) == Ok::<Seq<(i64, JsonV)>, ErrV>(id_pairs_view(out@)),
        decreases items.len() - i,
    {
        proof {
            lemma_collect_step(rs, i as int);
        }
        let it = &items[i];
        let id = match value_get(it, "id") {
            Some(Json::Int(id)) => *id,
            _ => {
                proof {
                    lemma_collect_prefix_err(rs, i + 1);
                }
                return Err(ApiError::param("items 项缺少 id"));
            },
        };
        let ghost prev = out@;
        out.push((id, clone_json(it)));
        assert(id_pairs_view(out@) =~= id_pairs_view(prev).push((id, iv[i as int])));
        i += 1;
    }
    proof {
        lemma_collect_all(rs);
    }
    Ok(out)
}

fn listed_pairs(ids: &Vec<Json>, patch: &Vec<(String, Json)>) -> (r: Result<Vec<(i64, Json)>, ApiError>)
    ensures
        match r {
            Ok(ps) => collect(
                jv_seq(ids@).map_values(|v: JsonV| listed_id(v, JsonV::Object(jv_obj(patch@)))),
            ) == Ok::<Seq<(i64, JsonV)>, ErrV>(id_pairs_view(ps@)),
            Err(e) => collect(jv_seq(ids@).map_values(|v: JsonV| listed_id(v, JsonV::Object(jv_obj(patch@))))) == Err::<
                Seq<(i64, JsonV)>,
                ErrV,
            >(e@),
        },
{
    proof {
        lemma_jv_seq(ids@);
    }
    let ghost pv = JsonV::Object(jv_obj(patch@));
    let ghost iv = jv_seq(ids@);
    let ghost rs = iv.map_values(|v: JsonV| listed_id(v, pv));
    let mut out: Vec<(i64, Json)> = Vec::new();
    let mut i: usize = 0;
    assert(rs.subrange(0, 0) =~= Seq::<Result<(i64, JsonV), ErrV>>::empty());
    assert(id_pairs_view(out@) =~= Seq::<(i64, JsonV)>::empty());
    while i < ids.len()
        invariant
            i <= ids.len(),
            iv == jv_seq(ids@),
            iv.len() == ids.len(),
            forall|q: int| 0 <= q < ids.len() ==> #[trigger] iv[q] == ids@[q]@,
            pv == JsonV::Object(jv_obj(patch@)),
            rs == iv.map_values(|v: JsonV| listed_id(v, pv)),
            collect(rs.subrange(0, i as int)) == Ok::<Seq<(i64, JsonV)>, ErrV>(id_pairs_view(out@)),
        decreases ids.len() - i,
    {
        proof {
            lemma_collect_step(rs, i as int);
        }
        let id = match &ids[i] {
            Json::Int(id) => *id,
            _ => {
                proof {
                    lemma_collect_prefix_err(rs, i + 1);
                }
                return Err(ApiError::param("ids 必须是整数数组"));
            },
        };
        let ghost prev = out@;
        let body = Json::Object(clone_json_obj(patch));
        out.push((id, body));
        assert(id_pairs_view(out@) =~= id_pairs_view(prev).push((id, pv)));
        i += 1;
    }
    proof {
        lemma_collect_all(rs);
    }
    Ok(out)
}

fn patch_pairs(body: &Json) -> (r: Result<Vec<(i64, Json)>, ApiError>)
    ensures
        match r {
            Ok(ps) => patch_pairs_spec(body@) == Ok::<Seq<(i64, JsonV)>, ErrV>(id_pairs_view(ps@)),
            Err(e) => patch_pairs_spec(body@) == Err::<Seq<(i64, JsonV)>, ErrV>(e@),
        },
{
    match value_get(body, "items") {
        Some(Json::Array(items)) => item_pairs(items),
        _ => {
            let ids = match value_get(body, "ids") {
                Some(Json::Array(a)) => a,
                _ => return Err(ApiError::param("请求体需要 { ids: [...], patch: {...} } 或 { items: [...] }")),
            };
            let patch = match value_get(body, "patch") {
                Some(Json::Object(p)) => p,
                _ => return Err(ApiError::param("请求体需要 { ids: [...], patch: {...} } 或 { items: [...] }")),
            };
            listed_pairs(ids, patch)
        },
    }
}

/// Reads a batch-update body: the key column and the (id, changes) pairs.
pub fn patch_request(t: &Table, body: &Json) -> (r: Result<(String, Vec<(i64, Json)>), ApiError>)
    ensures
        match r {
            Ok((pk, ps)) => patch_request_spec(*t, body@) == Ok::<(Seq<char>, Seq<(i64, JsonV)>), ErrV>(
                (pk@, id_pairs_view(ps@)),
            ),
            Err(e) => patch_request_spec(*t, body@) == Err::<(Seq<char>, Seq<(i64, JsonV)>), ErrV>(e@),
        },
{
    if t.primary_key.len() == 0 {
        return Err(ApiError::param("该表没有单一主键"));
    }
    let pairs = patch_pairs(body)?;
    if pairs.len() == 0 {
        return Err(ApiError::param("没有要更新的记录"));
    }
    if pairs.len() > MAX_BATCH {
        return Err(ApiError::over_limit("批量上限 1000 行"));
    }
    Ok((copy_string(&t.primary_key[0]), pairs))
}

/// A body without its `id` member (a body that is no object stays as it is).
pub open spec fn strip_id(body: JsonV) -> JsonV {
    match body {
        JsonV::Object(m) => JsonV::Object(without(m, "id"@)),
        other => other,
    }
}

/// The UPDATE of one row of a batch update: the row's changes, without `id`,
/// written to the row whose key is `id`.
pub open spec fn patch_plan_spec(t: Table, pk: Seq<char>, id: i64, body: JsonV) -> Result<(Seq<char>, Seq<SqlV>), ErrV> {
    update_plan_spec(t, strip_id(body), qi(pk) + " = ?"@, seq![SqlV::Integer(id)], false)
}

pub fn patch_plan(t: &Table, pk: &str, id: i64, body: &Json) -> (r: Result<(String, Vec<SqlVal>), ApiError>)
    ensures
        match r {
            Ok((s, ps)) => patch_plan_spec(*t, pk@, id, body@) == Ok::<(Seq<char>, Seq<SqlV>), ErrV>((s@, sql_view(ps@))),
            Err(e) => patch_plan_spec(*t, pk@, id, body@) == Err::<(Seq<char>, Seq<SqlV>), ErrV>(e@),
        },
{
    let stripped = match body {
        Json::Object(m) => Json::Object(without_exec(m, "id")),
        other => clone_json(other),
    };
    assert(stripped@ == strip_id(body@));
    let q = quote_ident(pk);
    let w = cat(q.as_str(), " = ?");
    let mut ps: Vec<SqlVal> = Vec::new();
    ps.push(SqlVal::Integer(id));
    assert(sql_view(ps@) =~= seq![SqlV::Integer(id)]);
    update_plan(t, &stripped, w.as_str(), ps, false)
}

/// A batch update never writes the `id` member of a row's changes: the row is
/// found by it, not given it.
pub proof fn law_patch_never_writes_id(body: JsonV)
    ensures
        get(strip_id(body), "id"@) is None,
{
    match body {
        JsonV::Object(m) => {
            crate::crud::law_without_removes(m, "id"@);
        },
        _ => {},
    }
}

// ---------------------------------------------------------------------------
// Deletes and their dry run
// ---------------------------------------------------------------------------

/// `DELETE FROM "t" WHERE <w>`.
pub open spec fn delete_where_sql(t: Table, w: Seq<char>) -> Seq<char> {
    "DELETE FROM "@ + qi(t.name@) + " WHERE "@ + w
}

pub fn delete_sql(t: &Table, where_sql: &str) -> (r: String)
    ensures
        r@ == delete_where_sql(*t, where_sql@),
{
    let q = quote_ident(t.name.as_str());
    let a = cat3("DELETE FROM ", q.as_str(), " WHERE ");
    cat(a.as_str(), where_sql)
}

/// One member of `{ids: [...]}` as the value bound to its placeholder.
pub open spec fn id_param(v: JsonV) -> Result<SqlV, ErrV> {
    match v {
        JsonV::Int(i) => Ok(SqlV::Integer(i)),
        _ => Err(e_param("ids 必须是整数数组"@)),
    }
}

/// `DELETE FROM "t" WHERE "pk" IN (?, ?, ...)` with `n` placeholders.
pub open spec fn delete_in_sql(t: Table, pk: Seq<char>, n: nat) -> Seq<char> {
    delete_where_sql(t, qi(pk) + " IN ("@ + join(repeat_text("?"@, n), ", "@) + ")"@)
}

/// A batch delete: between one and 1000 integer ids of the key column.
pub open spec fn delete_request_spec(t: Table, body: JsonV) -> Result<(Seq<char>, Seq<SqlV>), ErrV> {
    if t.primary_key@.len() == 0 {
        Err(e_param("该表没有单一主键"@))
    } else {
        match get(body, "ids"@) {
            Some(JsonV::Array(ids)) => if ids.len() == 0 {
                Err(e_param("ids 为空"@))
            } else if ids.len() > MAX_BATCH {
                Err(e_over_limit("批量上限 1000 行"@))
            } else {
                match collect(ids.map_values(|v: JsonV| id_param(v))) {
                    Err(e) => Err(e),
                    Ok(vals) => Ok((delete_in_sql(t, t.primary_key@[0]@, ids.len()), vals)),
                }
            },
            _ => Err(e_param("请求体需要 { ids: [...] }"@)),
        }
    }
}

pub fn delete_request(t: &Table, body: &Json) -> (r: Result<(String, Vec<SqlVal>), ApiError>)
    ensures
        match r {
            Ok((s, ps)) => delete_request_spec(*t, body@) == Ok::<(Seq<char>, Seq<SqlV>), ErrV>((s@, sql_view(ps@))),
            Err(e) => delete_request_spec(*t, body@) == Err::<(Seq<char>, Seq<SqlV>), ErrV>(e@),
        },
{
    if t.primary_key.len() == 0 {
        return Err(ApiError::param("该表没有单一主键"));
    }
    let ids = match value_get(body, "ids") {
        Some(Json::Array(a)) => a,
        _ => return Err(ApiError::param("请求体需要 { ids: [...] }")),
    };
    proof {
        lemma_jv_seq(ids@);
    }
    if ids.len() == 0 {
        return Err(ApiError::param("ids 为空"));
    }
    if ids.len() > MAX_BATCH {
        return Err(ApiError::over_limit("批量上限 1000 行"));
    }
    proof {
        lemma_jv_seq(ids@);
    }
    let ghost iv = jv_seq(ids@);
    let ghost rs = iv.map_values(|v: JsonV| id_param(v));
    let mut vals: Vec<SqlVal> = Vec::new();
    let mut i: usize = 0;
    assert(rs.subrange(0, 0) =~= Seq::<Result<SqlV, ErrV>>::empty());
    assert(sql_view(vals@) =~= Seq::<SqlV>::empty());
    while i < ids.len()
        invariant
            i <= ids.len(),
            iv == jv_seq(ids@),
            iv.len() == ids.len(),
            forall|q: int| 0 <= q < ids.len() ==> #[trigger] iv[q] == ids@[q]@,
            rs == iv.map_values(|v: JsonV| id_param(v)),
            collect(rs.subrange(0, i as int)) == Ok::<Seq<SqlV>, ErrV>(sql_view(vals@)),
            0 < ids.len() <= MAX_BATCH,
            t.primary_key@.len() > 0,
            get(body@, "ids"@) == Some(JsonV::Array(iv)),
        decreases ids.len() - i,
    {
        proof {
            lemma_collect_step(rs, i as int);
        }
        let id = match &ids[i] {
            Json::Int(id) => *id,
            _ => {
                assert(rs[i as int] == id_param(iv[i as int]));
                assert(rs[i as int] is Err);
                proof {
                    lemma_collect_prefix_err(rs, i + 1);
                }
                return Err(ApiError::param("ids 必须是整数数组"));
            },
        };
        let ghost prev = vals@;
        vals.push(SqlVal::Integer(id));
        assert(sql_view(vals@) =~= sql_view(prev).push(SqlV::Integer(id)));
        i += 1;
    }
    proof {
        lemma_collect_all(rs);
    }
    let pk = quote_ident(t.primary_key[0].as_str());
    let ph = repeat_join("?", ids.len(), ", ");
    let w = cat3(pk.as_str(), " IN (", ph.as_str());
    let w2 = cat(w.as_str(), ")");
    Ok((delete_sql(t, w2.as_str()), vals))
}

/// The WHERE of a delete by condition: one is owed, for a delete of every row
/// must not happen by accident.
pub open spec fn filter_delete_spec(t: Table, reg: Registry, c: Option<CondV>) -> Result<(Seq<char>, Seq<SqlV>), ErrV> {
    match c {
        None => Err(err(40005, 400, "按条件删除必须至少提供一个 filter 或 where 条件"@)),
        Some(c) => cond_sql(t, reg, t.name@, c),
    }
}

pub fn filter_delete_parts(t: &Table, reg: &Registry, spec: &QuerySpec) -> (r: Result<(String, Vec<SqlVal>), ApiError>)
    ensures
        match r {
            Ok((s, ps)) => filter_delete_spec(*t, *reg, spec@.cond) == Ok::<(Seq<char>, Seq<SqlV>), ErrV>((s@, sql_view(ps@))),
            Err(e) => filter_delete_spec(*t, *reg, spec@.cond) == Err::<(Seq<char>, Seq<SqlV>), ErrV>(e@),
        },
{
    match &spec.cond {
        None => Err(ApiError::dangerous("按条件删除必须至少提供一个 filter 或 where 条件")),
        Some(c) => {
            let mut params: Vec<SqlVal> = Vec::new();
            let w = render_cond(t, reg, t.name.as_str(), c, &mut params)?;
            assert(sql_view(params@) =~= Seq::<SqlV>::empty() + cond_sql(*t, *reg, t.name@, c@)->Ok_0.1);
            Ok((w, params))
        },
    }
}

/// Whether a query string asks for a dry run (it mentions `dry_run` anywhere).
pub fn wants_dry_run(raw: Option<&str>) -> (r: bool)
    ensures
        r == match raw {
            Some(s) => crate::text::has_text(s@, "dry_run"@),
            None => false,
        },
{
    match raw {
        None => false,
        Some(s) => {
            let cs = chars_of(s);
            let p = chars_of("dry_run");
            crate::text::contains_text(&cs, &p)
        },
    }
}

/// Whether deleting a parent row deletes the rows of this link too.
pub open spec fn is_cascade(h: HasMany) -> bool {
    h.on_delete matches Some(s) && s@ == "CASCADE"@
}

/// The cascading links of a table, the first one to each child table.
pub open spec fn cascades(h: Seq<HasMany>) -> Seq<HasMany>
    decreases h.len(),
{
    if h.len() == 0 {
        Seq::empty()
    } else {
        let prev = cascades(h.drop_last());
        if is_cascade(h.last()) && !has_many_names(prev).contains(h.last().table@) {
            prev.push(h.last())
        } else {
            prev
        }
    }
}

/// The key column of the parent rows (`id` for a table without one).
pub open spec fn pk_or_id(t: Table) -> Seq<char> {
    if t.primary_key@.len() == 0 {
        "id"@
    } else {
        t.primary_key@[0]@
    }
}

pub open spec fn count_where_sql(t: Table, w: Seq<char>) -> Seq<char> {
    "SELECT count(*) FROM "@ + qi(t.name@) + " WHERE "@ + w
}

pub open spec fn cascade_count_sql(t: Table, h: HasMany, w: Seq<char>) -> Seq<char> {
    "SELECT count(*) FROM "@ + qi(h.table@) + " WHERE "@ + qi(h.column@) + " IN (SELECT "@ + qi(pk_or_id(t))
        + " FROM "@ + qi(t.name@) + " WHERE "@ + w + ")"@
}

/// What a dry run counts, in order: the rows of `t` that `w` selects, then for
/// each cascading child table the rows that would go with them.
pub open spec fn dry_run_spec(t: Table, w: Seq<char>) -> Seq<(Seq<char>, Seq<char>)> {
    seq![(t.name@, count_where_sql(t, w))] + cascades(t.has_many@).map_values(
        |h: HasMany| (h.table@, cascade_count_sql(t, h, w)),
    )
}

fn count_query(t: &Table, where_sql: &str) -> (r: String)
    ensures
        r@ == count_where_sql(*t, where_sql@),
{
    let q = quote_ident(t.name.as_str());
    let a = cat3("SELECT count(*) FROM ", q.as_str(), " WHERE ");
    cat(a.as_str(), where_sql)
}

fn cascade_query(t: &Table, pk: &str, h: &HasMany, where_sql: &str) -> (r: String)
    requires
        pk@ == pk_or_id(*t),
    ensures
        r@ == cascade_count_sql(*t, *h, where_sql@),
{
    let qt = quote_ident(h.table.as_str());
    let qc = quote_ident(h.column.as_str());
    let qk = quote_ident(pk);
    let qn = quote_ident(t.name.as_str());
    let a = cat3("SELECT count(*) FROM ", qt.as_str(), " WHERE ");
    let b = cat3(a.as_str(), qc.as_str(), " IN (SELECT ");
    let c = cat3(b.as_str(), qk.as_str(), " FROM ");
    let d = cat3(c.as_str(), qn.as_str(), " WHERE ");
    let e = cat3(d.as_str(), where_sql, ")");
    assert(e@ =~= cascade_count_sql(*t, *h, where_sql@));
    e
}

pub fn dry_run_plan(t: &Table, where_sql: &str) -> (r: Vec<(String, String)>)
    ensures
        pairs_view(r@) == dry_run_spec(*t, where_sql@),
{
    let pk = if t.primary_key.len() == 0 {
        owned("id")
    } else {
        copy_string(&t.primary_key[0])
    };
    let ghost f = |h: HasMany| (h.table@, cascade_count_sql(*t, h, where_sql@));
    let mut out: Vec<(String, String)> = Vec::new();
    out.push((copy_string(&t.name), count_query(t, where_sql)));
    let mut seen: Vec<String> = Vec::new();
    let mut i: usize = 0;
    assert(t.has_many@.subrange(0, 0) =~= Seq::<HasMany>::empty());
    assert(pairs_view(out@) =~= seq![(t.name@, count_where_sql(*t, where_sql@))] + cascades(
        t.has_many@.subrange(0, 0),
    ).map_values(f));
    while i < t.has_many.len()
        invariant
            i <= t.has_many.len(),
            pk@ == pk_or_id(*t),
            f == (|h: HasMany| (h.table@, cascade_count_sql(*t, h, where_sql@))),
            seen.deep_view() == has_many_names(cascades(t.has_many@.subrange(0, i as int))),
            pairs_view(out@) == seq![(t.name@, count_where_sql(*t, where_sql@))] + cascades(
                t.has_many@.subrange(0, i as int),
            ).map_values(f),
        decreases t.has_many.len() - i,
    {
        let ghost sub = t.has_many@.subrange(0, i + 1);
        assert(sub.drop_last() =~= t.has_many@.subrange(0, i as int));
        assert(sub.last() == t.has_many@[i as int]);
        let h = &t.has_many[i];
        let cascade = match &h.on_delete {
            Some(s) => str_eq(s.as_str(), "CASCADE"),
            None => false,
        };
        if cascade && !crate::text::contains_str(&seen, h.table.as_str()) {
            let ghost prev_c = cascades(t.has_many@.subrange(0, i as int));
            let ghost prev_out = out@;
            seen.push(copy_string(&h.table));
            out.push((copy_string(&h.table), cascade_query(t, pk.as_str(), h, where_sql)));
            assert(cascades(sub) == prev_c.push(*h));
            assert(has_many_names(prev_c.push(*h)) =~= has_many_names(prev_c).push(h.table@));
            assert(prev_c.push(*h).map_values(f) =~= prev_c.map_values(f).push(f(*h)));
            assert(pairs_view(out@) =~= pairs_view(prev_out).push((h.table@, cascade_count_sql(*t, *h, where_sql@))));
        }
        i += 1;
    }
    assert(t.has_many@.subrange(0, t.has_many.len() as int) =~= t.has_many@);
    out
}

/// The answer of a dry run: each name with its count (a later count of the same
/// name replaces the earlier one).
pub open spec fn count_report(names: Seq<Seq<char>>, counts: Seq<i64>) -> Seq<(Seq<char>, JsonV)>
    decreases names.len(),
{
    if names.len() == 0 || counts.len() == 0 {
        Seq::empty()
    } else {
        obj_put(count_report(names.drop_last(), counts.drop_last()), names.last(), JsonV::Int(counts.last()))
    }
}

pub fn dry_run_report(names: &Vec<String>, counts: &Vec<i64>) -> (r: Json)
    requires
        names.len() == counts.len(),
    ensures
        r@ == JsonV::Object(count_report(names.deep_view(), counts@)),
{
    let mut m: Vec<(String, Json)> = Vec::new();
    let mut i: usize = 0;
    proof {
        lemma_jv_obj(m@);
    }
    assert(names.deep_view().subrange(0, 0) =~= Seq::<Seq<char>>::empty());
    while i < names.len()
        invariant
            i <= names.len(),
            names.len() == counts.len(),
            jv_obj(m@) == count_report(names.deep_view().subrange(0, i as int), counts@.subrange(0, i as int)),
        decreases names.len() - i,
    {
        let ghost ns = names.deep_view().subrange(0, i + 1);
        let ghost cs = counts@.subrange(0, i + 1);
        assert(ns.drop_last() =~= names.deep_view().subrange(0, i as int));
        assert(cs.drop_last() =~= counts@.subrange(0, i as int));
        assert(ns.last() == names@[i as int]@);
        obj_put_exec(&mut m, copy_string(&names[i]), Json::Int(counts[i]));
        i += 1;
    }
    assert(names.deep_view().subrange(0, names.len() as int) =~= names.deep_view());
    assert(counts@.subrange(0, counts.len() as int) =~= counts@);
    Json::Object(m)
}

// ---------------------------------------------------------------------------
// Replacing the child rows of a row
// ---------------------------------------------------------------------------

/// The rows of a child replacement: the body itself when it is an array, else its
/// `items` array; at most 1000.
pub open spec fn children_items_spec(body: JsonV) -> Result<Seq<JsonV>, ErrV> {
    let items = match body {
        JsonV::Array(a) => Some(a),
        _ => match get(body, "items"@) {
            Some(JsonV::Array(a)) => Some(a),
            _ => None,
        },
    };
    match items {
        None => Err(e_param("请求体需要是数组，或 { items: [...] }"@)),
        Some(a) => if a.len() > MAX_BATCH {
            Err(e_over_limit("批量上限 1000 行"@))
        } else {
            Ok(a)
        },
    }
}

pub fn children_items(body: &Json) -> (r: Result<&Vec<Json>, ApiError>)
    ensures
        match r {
            Ok(v) => children_items_spec(body@) == Ok::<Seq<JsonV>, ErrV>(jv_seq(v@)),
            Err(e) => children_items_spec(body@) == Err::<Seq<JsonV>, ErrV>(e@),
        },
{
    let items = match body {
        Json::Array(a) => a,
        _ => match value_get(body, "items") {
            Some(Json::Array(a)) => a,
            _ => return Err(ApiError::param("请求体需要是数组，或 { items: [...] }")),
        },
    };
    if items.len() > MAX_BATCH {
        proof {
            lemma_jv_seq(items@);
        }
        return Err(ApiError::over_limit("批量上限 1000 行"));
    }
    proof {
        lemma_jv_seq(items@);
    }
    Ok(items)
}

/// The DELETE of the rows of `ct` that belong to the parent row `id`.
pub open spec fn child_clear_spec(ct: Table, link: Seq<char>, id: i64) -> (Seq<char>, Seq<SqlV>) {
    (delete_where_sql(ct, qi(link) + " = ?"@), seq![SqlV::Integer(id)])
}

pub fn child_clear(ct: &Table, link: &str, id: i64) -> (r: (String, Vec<SqlVal>))
    ensures
        (r.0@, sql_view(r.1@)) == child_clear_spec(*ct, link@, id),
{
    let q = quote_ident(link);
    let w = cat(q.as_str(), " = ?");
    let mut ps: Vec<SqlVal> = Vec::new();
    ps.push(SqlVal::Integer(id));
    assert(sql_view(ps@) =~= seq![SqlV::Integer(id)]);
    (delete_sql(ct, w.as_str()), ps)
}

/// Where `k` goes in a map ordered by key: at its own member, or before the
/// first greater key, or at the end.
pub open spec fn insert_pos(m: Seq<(Seq<char>, JsonV)>, k: Seq<char>, i: int) -> int
    decreases m.len() - i,
{
    if i < 0 || i >= m.len() {
        m.len() as int
    } else if m[i].0 == k || seq_lt(k, m[i].0) {
        i
    } else {
        insert_pos(m, k, i + 1)
    }
}

/// `BTreeMap::insert` on the members of an object ordered by key: the member
/// `k` takes the value `v`, or is added in its place in the order.
pub open spec fn map_insert(m: Seq<(Seq<char>, JsonV)>, k: Seq<char>, v: JsonV) -> Seq<(Seq<char>, JsonV)> {
    let p = insert_pos(m, k, 0);
    if 0 <= p < m.len() && m[p].0 == k {
        m.update(p, (k, v))
    } else {
        m.insert(p, (k, v))
    }
}

fn stops_at(key: &String, k: &str) -> (r: bool)
    ensures
        r == (key@ == k@ || seq_lt(k@, key@)),
{
    str_eq(key.as_str(), k) || str_lt(k, key.as_str())
}

fn map_insert_exec(m: &Vec<(String, Json)>, k: &str, v: Json) -> (r: Vec<(String, Json)>)
    ensures
        jv_obj(r@) == map_insert(jv_obj(m@), k@, v@),
{
    proof {
        lemma_jv_obj(m@);
    }
    let ghost mv = jv_obj(m@);
    let mut j: usize = 0;
    while j < m.len() && !stops_at(&m[j].0, k)
        invariant
            j <= m.len(),
            mv == jv_obj(m@),
            mv.len() == m.len(),
            forall|q: int| 0 <= q < m.len() ==> #[trigger] mv[q] == (m@[q].0@, m@[q].1@),
            insert_pos(mv, k@, 0) == insert_pos(mv, k@, j as int),
        decreases m.len() - j,
    {
        j += 1;
    }
    assert(insert_pos(mv, k@, 0) == j);
    let mut out = clone_json_obj(m);
    proof {
        lemma_jv_obj(out@);
    }
    assert(out@.len() == m@.len());
    let ghost vv = v@;
    if j < m.len() && str_eq(m[j].0.as_str(), k) {
        out.set(j, (owned(k), v));
        proof {
            lemma_jv_obj(out@);
        }
        assert(jv_obj(out@) =~= mv.update(j as int, (k@, vv)));
    } else {
        out.insert(j, (owned(k), v));
        proof {
            lemma_jv_obj(out@);
        }
        assert(jv_obj(out@) =~= mv.insert(j as int, (k@, vv)));
    }
    out
}

proof fn lemma_insert_pos(m: Seq<(Seq<char>, JsonV)>, k: Seq<char>, i: int)
    requires
        0 <= i <= m.len(),
    ensures
        i <= insert_pos(m, k, i) <= m.len(),
        forall|q: int| i <= q < insert_pos(m, k, i) ==> !(m[q].0 == k || seq_lt(k, m[q].0)),
        insert_pos(m, k, i) < m.len() ==> (m[insert_pos(m, k, i)].0 == k || seq_lt(k, m[insert_pos(m, k, i)].0)),
    decreases m.len() - i,
{
    if i < m.len() && !(m[i].0 == k || seq_lt(k, m[i].0)) {
        lemma_insert_pos(m, k, i + 1);
    }
}

/// After `map_insert(m, k, v)` the member `k` reads `v`.
pub proof fn law_insert_then_get(m: Seq<(Seq<char>, JsonV)>, k: Seq<char>, v: JsonV)
    ensures
        obj_get(map_insert(m, k, v), k) == Some(v),
{
    let p = insert_pos(m, k, 0);
    lemma_insert_pos(m, k, 0);
    let m2 = map_insert(m, k, v);
    crate::json::lemma_member_at_first(m2, k, 0);
    crate::json::lemma_obj_get_first(m2, k);
    assert(m2[p] == (k, v));
    assert forall|q: int| 0 <= q < p implies m2[q].0 != k by {
        assert(m2[q] == m[q]);
    }
    match crate::json::member_at(m2, k, 0) {
        Some(j) => {
            if j > p {
                assert(m2[p].0 == k);
            }
        },
        None => {
            assert(m2[p].0 == k);
        },
    }
}

/// The INSERT of one child row, its link column set to the parent row.
pub open spec fn child_row_spec(ct: Table, link: Seq<char>, id: i64, item: JsonV) -> Result<(Seq<char>, Seq<SqlV>), ErrV> {
    match item {
        JsonV::Object(m) => insert_plan_spec(ct, JsonV::Object(map_insert(m, link, JsonV::Int(id)))),
        _ => Err(e_param("数组元素必须是对象"@)),
    }
}

pub fn child_row_plan(ct: &Table, link: &str, id: i64, item: &Json) -> (r: Result<(String, Vec<SqlVal>), ApiError>)
    ensures
        match r {
            Ok((s, ps)) => child_row_spec(*ct, link@, id, item@) == Ok::<(Seq<char>, Seq<SqlV>), ErrV>((s@, sql_view(ps@))),
            Err(e) => child_row_spec(*ct, link@, id, item@) == Err::<(Seq<char>, Seq<SqlV>), ErrV>(e@),
        },
{
    match item {
        Json::Object(m) => {
            let m2 = map_insert_exec(m, link, Json::Int(id));
            let body = Json::Object(m2);
            insert_plan(ct, &body)
        },
        _ => Err(ApiError::param("数组元素必须是对象")),
    }
}

// ---------------------------------------------------------------------------
// CSV export
// ---------------------------------------------------------------------------

/// An export reads one page of at most 10000 rows.
pub fn export_spec(spec: QuerySpec) -> (r: QuerySpec)
    ensures
        r@ == (QuerySpecV { limit: Some(10000), page: Some(1), ..spec@ }),
{
    let mut s = spec;
    s.limit = Some(MAX_PAGE_SIZE * 50);
    s.page = Some(1);
    s
}

/// The header name of an output column: the column, `key__column` for a joined
/// one, the alias of an aggregate.
pub open spec fn output_name(o: OutputColV) -> Seq<char> {
    match o {
        OutputColV::Base(c) => c,
        OutputColV::Joined { key, column } => key + "__"@ + column,
        OutputColV::Agg { alias } => alias,
    }
}

pub fn output_names(outputs: &Vec<OutputCol>) -> (r: Vec<String>)
    ensures
        r.deep_view() == outputs@.map_values(|o: OutputCol| output_name(o@)),
{
    let mut out: Vec<String> = Vec::new();
    let mut i: usize = 0;
    while i < outputs.len()
        invariant
            i <= outputs.len(),
            out.len() == i,
            forall|q: int| 0 <= q < i ==> #[trigger] out@[q]@ == output_name(outputs@[q]@),
        decreases outputs.len() - i,
    {
        let n = match &outputs[i] {
            OutputCol::Base(c) => copy_string(c),
            OutputCol::Joined { key, column } => cat3(key.as_str(), "__", column.as_str()),
            OutputCol::Agg { alias } => copy_string(alias),
        };
        out.push(n);
        i += 1;
    }
    assert(out.deep_view() =~= outputs@.map_values(|o: OutputCol| output_name(o@)));
    out
}

/// `s` with every `"` doubled.
pub open spec fn doubled_quotes(s: Seq<char>) -> Seq<char>
    decreases s.len(),
{
    if s.len() == 0 {
        Seq::empty()
    } else {
        doubled_quotes(s.drop_last()) + (if s.last() == '"' {
            seq!['"', '"']
        } else {
            seq![s.last()]
        })
    }
}

/// The text of a cell: nothing for a missing value or `null`, a string as it
/// is, any other value as compact JSON.
pub open spec fn cell_text(v: Option<JsonV>) -> Seq<char> {
    match v {
        None => Seq::empty(),
        Some(JsonV::Null) => Seq::empty(),
        Some(JsonV::Str(s)) => s,
        Some(o) => json_text(o),
    }
}

/// A CSV cell: quoted, with its quotes doubled, when it holds `,`, `"` or a newline.
pub open spec fn csv_cell_spec(v: Option<JsonV>) -> Seq<char> {
    let s = cell_text(v);
    if s.contains(',') || s.contains('"') || s.contains('\n') {
        seq!['"'] + doubled_quotes(s) + seq!['"']
    } else {
        s
    }
}

pub open spec fn opt_view(v: Option<&Json>) -> Option<JsonV> {
    match v {
        Some(j) => Some(j@),
        None => None,
    }
}

pub fn csv_cell(v: Option<&Json>) -> (r: String)
    ensures
        r@ == csv_cell_spec(opt_view(v)),
{
    let s = match v {
        None => String::new(),
        Some(Json::Null) => String::new(),
        Some(Json::Str(x)) => copy_string(x),
        Some(o) => to_json_text(o),
    };
    assert(s@ == cell_text(opt_view(v)));
    let cs = chars_of(s.as_str());
    if !(contains_char(s.as_str(), ',') || contains_char(s.as_str(), '"') || contains_char(s.as_str(), '\n')) {
        return s;
    }
    let mut out: Vec<char> = Vec::new();
    out.push('"');
    let mut i: usize = 0;
    assert(cs@.subrange(0, 0) =~= Seq::<char>::empty());
    while i < cs.len()
        invariant
            i <= cs.len(),
            out@ == seq!['"'] + doubled_quotes(cs@.subrange(0, i as int)),
        decreases cs.len() - i,
    {
        let ghost sub = cs@.subrange(0, i + 1);
        assert(sub.drop_last() =~= cs@.subrange(0, i as int));
        if cs[i] == '"' {
            out.push('"');
            out.push('"');
        } else {
            out.push(cs[i]);
        }
        assert(out@ =~= seq!['"'] + doubled_quotes(sub));
        i += 1;
    }
    out.push('"');
    assert(cs@.subrange(0, cs.len() as int) =~= cs@);
    string_of(out.as_slice())
}

/// `""` read as `"`, from the end of the text on.
pub open spec fn undoubled(s: Seq<char>) -> Seq<char>
    decreases s.len(),
{
    if s.len() == 0 {
        Seq::empty()
    } else if s.len() >= 2 && s.last() == '"' && s[s.len() - 2] == '"' {
        undoubled(s.subrange(0, s.len() - 2)).push('"')
    } else {
        undoubled(s.drop_last()).push(s.last())
    }
}

/// How a CSV reader reads one cell: a quoted cell loses its outer quotes and
/// its doubled quotes are read as one.
pub open spec fn csv_read_cell(s: Seq<char>) -> Seq<char> {
    if s.len() >= 2 && s[0] == '"' && s.last() == '"' {
        undoubled(s.subrange(1, s.len() - 1))
    } else {
        s
    }
}

proof fn lemma_undoubled(s: Seq<char>)
    ensures
        undoubled(doubled_quotes(s)) == s,
    decreases s.len(),
{
    if s.len() > 0 {
        let t = s.drop_last();
        lemma_undoubled(t);
        let d = doubled_quotes(s);
        if s.last() == '"' {
            assert(d == doubled_quotes(t) + seq!['"', '"']);
            assert(d.subrange(0, d.len() - 2) =~= doubled_quotes(t));
        } else {
            assert(d == doubled_quotes(t) + seq![s.last()]);
            assert(d.drop_last() =~= doubled_quotes(t));
        }
        assert(s =~= t.push(s.last()));
    }
}

/// A CSV reader reads every exported cell back as the cell's text.
pub proof fn law_csv_cell_reads_back(v: Option<JsonV>)
    ensures
        csv_read_cell(csv_cell_spec(v)) == cell_text(v),
{
    let s = cell_text(v);
    if s.contains(',') || s.contains('"') || s.contains('\n') {
        let q = seq!['"'] + doubled_quotes(s) + seq!['"'];
        assert(q.subrange(1, q.len() - 1) =~= doubled_quotes(s));
        lemma_undoubled(s);
    } else {
        if s.len() >= 2 {
            assert(s[0] != '"');
        }
    }
}

/// The first lines of the export: a byte-order mark and the header names.
pub open spec fn csv_header_spec(names: Seq<Seq<char>>) -> Seq<char> {
    "\u{feff}"@ + join(names, ","@) + "\n"@
}

pub fn csv_header(names: &Vec<String>) -> (r: String)
    ensures
        r@ == csv_header_spec(names.deep_view()),
{
    let j = join_strings(names, ",");
    cat3("\u{feff}", j.as_str(), "\n")
}

/// One exported row: the cells of the named members of the row object.
pub open spec fn csv_line_spec(names: Seq<Seq<char>>, row: JsonV) -> Seq<char> {
    join(names.map_values(|n: Seq<char>| csv_cell_spec(get(row, n))), ","@) + "\n"@
}

pub fn csv_line(names: &Vec<String>, row: &Json) -> (r: String)
    ensures
        r@ == csv_line_spec(names.deep_view(), row@),
{
    let mut cells: Vec<String> = Vec::new();
    let mut i: usize = 0;
    while i < names.len()
        invariant
            i <= names.len(),
            cells.len() == i,
            forall|q: int| 0 <= q < i ==> #[trigger] cells@[q]@ == csv_cell_spec(get(row@, names@[q]@)),
        decreases names.len() - i,
    {
        let v = value_get(row, names[i].as_str());
        let c = csv_cell(v);
        assert(opt_view(v) == get(row@, names@[i as int]@));
        cells.push(c);
        i += 1;
    }
    assert(cells.deep_view() =~= names.deep_view().map_values(|n: Seq<char>| csv_cell_spec(get(row@, n))));
    let j = join_strings(&cells, ",");
    cat(j.as_str(), "\n")
}

// ---------------------------------------------------------------------------
// Small answers
// ---------------------------------------------------------------------------

/// `{key: value}`.
pub fn one_member(key: &str, v: Json) -> (r: Json)
    ensures
        r@ == JsonV::Object(seq![(key@, v@)]),
{
    let mut m: Vec<(String, Json)> = Vec::new();
    m.push((owned(key), v));
    proof {
        lemma_jv_obj(m@);
    }
    assert(jv_obj(m@) =~= seq![(key@, m@[0].1@)]);
    Json::Object(m)
}

/// Whether a count answer `{count: n}` counted a row (a missing count is none).
pub open spec fn exists_spec(count_data: JsonV) -> JsonV {
    let n = match get(count_data, "count"@) {
        Some(JsonV::Int(n)) => n,
        _ => 0,
    };
    JsonV::Object(seq![("exists"@, JsonV::Bool(n > 0))])
}

pub fn exists_answer(count_data: &Json) -> (r: Json)
    ensures
        r@ == exists_spec(count_data@),
{
    let n: i64 = match value_get(count_data, "count") {
        Some(Json::Int(n)) => *n,
        _ => 0,
    };
    one_member("exists", Json::Bool(n > 0))
}

// ---------------------------------------------------------------------------
// Health
// ---------------------------------------------------------------------------

pub open spec fn counts_view(c: Seq<(String, i64)>) -> Seq<(Seq<char>, i64)> {
    c.map_values(|p: (String, i64)| (p.0@, p.1))
}

/// The sum of the row counts.
pub open spec fn rows_total(c: Seq<(Seq<char>, i64)>) -> int
    decreases c.len(),
{
    if c.len() == 0 {
        0
    } else {
        rows_total(c.drop_last()) + c.last().1
    }
}

/// Every partial sum of the row counts fits in `i64`.
pub open spec fn totals_fit(c: Seq<(Seq<char>, i64)>) -> bool {
    forall|k: int| 0 <= k <= c.len() ==> i64::MIN <= #[trigger] rows_total(c.subrange(0, k)) <= i64::MAX
}

pub fn rows_sum(counts: &Vec<(String, i64)>) -> (r: i64)
    requires
        totals_fit(counts_view(counts@)),
    ensures
        r == rows_total(counts_view(counts@)),
{
    let ghost cv = counts_view(counts@);
    let mut total: i64 = 0;
    let mut i: usize = 0;
    assert(cv.subrange(0, 0) =~= Seq::<(Seq<char>, i64)>::empty());
    while i < counts.len()
        invariant
            i <= counts.len(),
            cv == counts_view(counts@),
            cv.len() == counts.len(),
            totals_fit(cv),
            total == rows_total(cv.subrange(0, i as int)),
        decreases counts.len() - i,
    {
        let ghost sub = cv.subrange(0, i + 1);
        assert(sub.drop_last() =~= cv.subrange(0, i as int));
        assert(sub.last() == (counts@[i as int].0@, counts@[i as int].1));
        assert(i64::MIN <= rows_total(sub) <= i64::MAX);
        total = total + counts[i].1;
        i += 1;
    }
    assert(cv.subrange(0, counts.len() as int) =~= cv);
    total
}

/// One line of the health answer's table list.
pub open spec fn table_rows(p: (Seq<char>, i64)) -> JsonV {
    JsonV::Object(seq![("table"@, JsonV::Str(p.0)), ("rows"@, JsonV::Int(p.1))])
}

/// The health answer: the database file, the number of whitelisted tables, and
/// the rows of each table with their total.
pub open spec fn health_spec(db_path: Seq<char>, table_count: nat, counts: Seq<(Seq<char>, i64)>) -> JsonV {
    JsonV::Object(
        seq![
            ("status"@, JsonV::Str("ok"@)),
            ("db_path"@, JsonV::Str(db_path)),
            ("table_count"@, count_json(table_count)),
            ("total_rows"@, JsonV::Int(rows_total(counts) as i64)),
            ("tables"@, JsonV::Array(counts.map_values(|p: (Seq<char>, i64)| table_rows(p)))),
        ],
    )
}

pub fn health_data(db_path: &str, table_count: usize, counts: &Vec<(String, i64)>) -> (r: Json)
    requires
        totals_fit(counts_view(counts@)),
    ensures
        r@ == health_spec(db_path@, table_count as nat, counts_view(counts@)),
{
    let total = rows_sum(counts);
    let mut rows: Vec<Json> = Vec::new();
    let mut i: usize = 0;
    while i < counts.len()
        invariant
            i <= counts.len(),
            rows.len() == i,
            forall|q: int| 0 <= q < i ==> #[trigger] rows@[q]@ == table_rows((counts@[q].0@, counts@[q].1)),
        decreases counts.len() - i,
    {
        let mut m: Vec<(String, Json)> = Vec::new();
        m.push((owned("table"), Json::Str(copy_string(&counts[i].0))));
        m.push((owned("rows"), Json::Int(counts[i].1)));
        proof {
            lemma_jv_obj(m@);
        }
        assert(jv_obj(m@) =~= seq![("table"@, JsonV::Str(counts@[i as int].0@)), ("rows"@, JsonV::Int(counts@[i as int].1))]);
        rows.push(Json::Object(m));
        i += 1;
    }
    proof {
        lemma_jv_seq(rows@);
    }
    assert forall|q: int| 0 <= q < rows.len() implies #[trigger] jv_seq(rows@)[q] == table_rows(counts_view(counts@)[q]) by {
        assert(rows@[q]@ == table_rows((counts@[q].0@, counts@[q].1)));
    }
    assert(jv_seq(rows@) =~= counts_view(counts@).map_values(|p: (Seq<char>, i64)| table_rows(p)));
    let mut m: Vec<(String, Json)> = Vec::new();
    m.push((owned("status"), Json::Str(owned("ok"))));
    m.push((owned("db_path"), Json::Str(owned(db_path))));
    m.push((owned("table_count"), count_value(table_count)));
    m.push((owned("total_rows"), Json::Int(total)));
    m.push((owned("tables"), Json::Array(rows)));
    proof {
        lemma_jv_obj(m@);
    }
    assert(jv_obj(m@) =~= seq![
        ("status"@, JsonV::Str("ok"@)),
        ("db_path"@, JsonV::Str(db_path@)),
        ("table_count"@, count_json(table_count as nat)),
        ("total_rows"@, JsonV::Int(rows_total(counts_view(counts@)) as i64)),
        ("tables"@, JsonV::Array(counts_view(counts@).map_values(|p: (Seq<char>, i64)| table_rows(p)))),
    ]);
    Json::Object(m)
}

} // verus!
