//! Query parameters: a GET query string, or the JSON condition tree of
//! POST /query, both turned into one `QuerySpec` for the SQL builder.
//!
//! Only parsing and whitelist checks happen here; no value is ever written into SQL.

use crate::error::{
    collect, concat_all, e_over_limit, e_param, e_unknown_operator, lemma_collect_all,
    lemma_collect_prefix_err, lemma_collect_step, lemma_concat_step, ApiError, ErrV,
};
use crate::json::{as_bool, as_i64, as_object, as_str, value_get, clone_json, clone_json_vec, get, jv, jv_seq, lemma_jv_seq, lemma_jv_seq_push, obj_get, json_get, Json, JsonV};
use crate::query::ast::{
    clone_conds, combine, cv, cv_seq, lemma_cv_seq, lemma_cv_seq_push, op_name, op_of_lower, resolve,
    resolve_spec, ColRef, ColRefV, Cond, CondV, Leaf, LeafV, Op,
};
use crate::query::where_dsl::{parse, where_spec};
use crate::schema::{Column, Registry, Table};
use crate::text::{
    cat, cat3, copy_string, copy_strings, first_index, float_literal, i64_of_text, i64_text, int_text,
    lower, lemma_lower_idempotent, owned, parse_i64_chars, str_eq, chars_of, string_of, slice_chars, to_lower, trim, trim_chars,
    trim_str, usize_of_text, parse_usize_chars, is_float_literal, find_char, has_prefix,
};
use crate::value::{direction_spec, normalize_direction};
use vstd::prelude::*;

verus! {

pub const DEFAULT_PAGE_SIZE: i64 = 20;

pub const MAX_PAGE_SIZE: i64 = 200;

pub const MAX_BATCH: usize = 1000;

pub const MAX_DEPTH: usize = 5;

pub const MAX_PAGE: i64 = 10000;

#[derive(Debug, Clone)]
pub struct OrderBy {
    pub column: String,
    pub direction: String,
    pub nulls_last: bool,
}

pub struct OrderByV {
    pub column: Seq<char>,
    pub direction: Seq<char>,
    pub nulls_last: bool,
}

impl View for OrderBy {
    type V = OrderByV;

    open spec fn view(&self) -> OrderByV {
        OrderByV { column: self.column@, direction: self.direction@, nulls_last: self.nulls_last }
    }
}

#[derive(Debug, Clone)]
pub struct Agg {
    pub func: String,
    pub column: Option<String>,
    pub alias: String,
}

pub struct AggV {
    pub func: Seq<char>,
    pub column: Option<Seq<char>>,
    pub alias: Seq<char>,
}

impl View for Agg {
    type V = AggV;

    open spec fn view(&self) -> AggV {
        AggV {
            func: self.func@,
            column: match self.column {
                Some(c) => Some(c@),
                None => None,
            },
            alias: self.alias@,
        }
    }
}

pub open spec fn orders_view(s: Seq<OrderBy>) -> Seq<OrderByV> {
    s.map_values(|o: OrderBy| o@)
}

pub open spec fn aggs_view(s: Seq<Agg>) -> Seq<AggV> {
    s.map_values(|a: Agg| a@)
}

/// What a list or count request asks for.
#[derive(Debug)]
pub struct QuerySpec {
    pub select: Vec<String>,
    pub cond: Option<Cond>,
    pub q: Option<String>,
    pub order_by: Vec<OrderBy>,
    pub page: Option<i64>,
    pub page_size: Option<i64>,
    pub limit: Option<i64>,
    pub offset: Option<i64>,
    pub distinct: bool,
    pub group_by: Vec<String>,
    pub aggregates: Vec<Agg>,
    pub expand: Vec<String>,
    pub children: Vec<String>,
    pub raw_json: bool,
    pub count_only: bool,
}

pub struct QuerySpecV {
    pub select: Seq<Seq<char>>,
    pub cond: Option<CondV>,
    pub q: Option<Seq<char>>,
    pub order_by: Seq<OrderByV>,
    pub page: Option<i64>,
    pub page_size: Option<i64>,
    pub limit: Option<i64>,
    pub offset: Option<i64>,
    pub distinct: bool,
    pub group_by: Seq<Seq<char>>,
    pub aggregates: Seq<AggV>,
    pub expand: Seq<Seq<char>>,
    pub children: Seq<Seq<char>>,
    pub raw_json: bool,
    pub count_only: bool,
}

pub open spec fn opt_str(s: Option<String>) -> Option<Seq<char>> {
    match s {
        Some(x) => Some(x@),
        None => None,
    }
}

pub open spec fn opt_cond(c: Option<Cond>) -> Option<CondV> {
    match c {
        Some(x) => Some(cv(x)),
        None => None,
    }
}

impl View for QuerySpec {
    type V = QuerySpecV;

    open spec fn view(&self) -> QuerySpecV {
        QuerySpecV {
            select: self.select.deep_view(),
            cond: opt_cond(self.cond),
            q: opt_str(self.q),
            order_by: orders_view(self.order_by@),
            page: self.page,
            page_size: self.page_size,
            limit: self.limit,
            offset: self.offset,
            distinct: self.distinct,
            group_by: self.group_by.deep_view(),
            aggregates: aggs_view(self.aggregates@),
            expand: self.expand.deep_view(),
            children: self.children.deep_view(),
            raw_json: self.raw_json,
            count_only: self.count_only,
        }
    }
}

/// The request that asks for nothing in particular.
pub open spec fn empty_query() -> QuerySpecV {
    QuerySpecV {
        select: Seq::empty(),
        cond: None,
        q: None,
        order_by: Seq::empty(),
        page: None,
        page_size: None,
        limit: None,
        offset: None,
        distinct: false,
        group_by: Seq::empty(),
        aggregates: Seq::empty(),
        expand: Seq::empty(),
        children: Seq::empty(),
        raw_json: false,
        count_only: false,
    }
}

impl Default for QuerySpec {
    fn default() -> (r: QuerySpec)
        ensures
            r@ == empty_query(),
    {
        let r = QuerySpec {
            select: Vec::new(),
            cond: None,
            q: None,
            order_by: Vec::new(),
            page: None,
            page_size: None,
            limit: None,
            offset: None,
            distinct: false,
            group_by: Vec::new(),
            aggregates: Vec::new(),
            expand: Vec::new(),
            children: Vec::new(),
            raw_json: false,
            count_only: false,
        };
        assert(r.select.deep_view() =~= Seq::<Seq<char>>::empty());
        assert(r.group_by.deep_view() =~= Seq::<Seq<char>>::empty());
        assert(r.expand.deep_view() =~= Seq::<Seq<char>>::empty());
        assert(r.children.deep_view() =~= Seq::<Seq<char>>::empty());
        assert(orders_view(r.order_by@) =~= Seq::<OrderByV>::empty());
        assert(aggs_view(r.aggregates@) =~= Seq::<AggV>::empty());
        r
    }
}

pub open spec fn clamp(x: int, lo: int, hi: int) -> int {
    if x < lo {
        lo
    } else if x > hi {
        hi
    } else {
        x
    }
}

/// Rows per page: `limit`, else `page_size`, else the default, kept within 1..=200.
pub open spec fn limit_of(limit: Option<i64>, page_size: Option<i64>) -> int {
    match limit {
        Some(l) => clamp(l as int, 1, MAX_PAGE_SIZE as int),
        None => clamp(
            match page_size {
                Some(p) => p as int,
                None => DEFAULT_PAGE_SIZE as int,
            },
            1,
            MAX_PAGE_SIZE as int,
        ),
    }
}

/// The page asked for, kept within 1..=10000.
pub open spec fn page_of(page: Option<i64>) -> int {
    clamp(
        match page {
            Some(p) => p as int,
            None => 1,
        },
        1,
        MAX_PAGE as int,
    )
}

/// Rows to skip: `offset` (never negative), else the rows of the pages before.
pub open spec fn offset_of(s: QuerySpecV) -> int {
    match s.offset {
        Some(o) => if o < 0 {
            0
        } else {
            o as int
        },
        None => (page_of(s.page) - 1) * limit_of(s.limit, s.page_size),
    }
}

impl QuerySpec {
    /// Rows per page in effect (`page`/`page_size` or `limit`/`offset`).
    pub fn effective_limit(&self) -> (r: i64)
        ensures
            r == limit_of(self.limit, self.page_size),
            1 <= r <= MAX_PAGE_SIZE,
    {
        let v = match self.limit {
            Some(l) => l,
            None => match self.page_size {
                Some(p) => p,
                None => DEFAULT_PAGE_SIZE,
            },
        };
        if v < 1 {
            1
        } else if v > MAX_PAGE_SIZE {
            MAX_PAGE_SIZE
        } else {
            v
        }
    }

    /// Rows skipped in effect.
    pub fn effective_offset(&self) -> (r: i64)
        ensures
            r == offset_of(self@),
            0 <= r,
    {
        match self.offset {
            Some(o) => if o < 0 {
                0
            } else {
                o
            },
            None => {
                let page = self.page();
                let lim = self.effective_limit();
                assert(0 <= (page - 1) * lim <= (MAX_PAGE - 1) * MAX_PAGE_SIZE) by (nonlinear_arith)
                    requires
                        1 <= page <= MAX_PAGE,
                        1 <= lim <= MAX_PAGE_SIZE,
                ;
                (page - 1) * lim
            },
        }
    }

    pub fn page(&self) -> (r: i64)
        ensures
            r == page_of(self.page),
            1 <= r <= MAX_PAGE,
    {
        let p = match self.page {
            Some(p) => p,
            None => 1,
        };
        if p < 1 {
            1
        } else if p > MAX_PAGE {
            MAX_PAGE
        } else {
            p
        }
    }

    pub fn page_size(&self) -> (r: i64)
        ensures
            r == limit_of(self.limit, self.page_size),
            1 <= r <= MAX_PAGE_SIZE,
    {
        self.effective_limit()
    }
}

fn clone_orders(v: &Vec<OrderBy>) -> (r: Vec<OrderBy>)
    ensures
        orders_view(r@) == orders_view(v@),
{
    let mut out: Vec<OrderBy> = Vec::new();
    let mut i: usize = 0;
    while i < v.len()
        invariant
            i <= v.len(),
            out.len() == i,
            forall|j: int| 0 <= j < i ==> #[trigger] out@[j]@ == v@[j]@,
        decreases v.len() - i,
    {
        let o = &v[i];
        out.push(OrderBy { column: copy_string(&o.column), direction: copy_string(&o.direction), nulls_last: o.nulls_last });
        i += 1;
    }
    assert(orders_view(out@) =~= orders_view(v@));
    out
}

fn clone_aggs(v: &Vec<Agg>) -> (r: Vec<Agg>)
    ensures
        aggs_view(r@) == aggs_view(v@),
{
    let mut out: Vec<Agg> = Vec::new();
    let mut i: usize = 0;
    while i < v.len()
        invariant
            i <= v.len(),
            out.len() == i,
            forall|j: int| 0 <= j < i ==> #[trigger] out@[j]@ == v@[j]@,
        decreases v.len() - i,
    {
        let a = &v[i];
        let column = match &a.column {
            Some(c) => Some(copy_string(c)),
            None => None,
        };
        out.push(Agg { func: copy_string(&a.func), column, alias: copy_string(&a.alias) });
        i += 1;
    }
    assert(aggs_view(out@) =~= aggs_view(v@));
    out
}

impl QuerySpec {
    /// A copy of the request.
    pub fn duplicate(&self) -> (r: QuerySpec)
        ensures
            r@ == self@,
    {
        QuerySpec {
            select: copy_strings(&self.select),
            cond: match &self.cond {
                Some(c) => Some(c.duplicate()),
                None => None,
            },
            q: match &self.q {
                Some(s) => Some(copy_string(s)),
                None => None,
            },
            order_by: clone_orders(&self.order_by),
            page: self.page,
            page_size: self.page_size,
            limit: self.limit,
            offset: self.offset,
            distinct: self.distinct,
            group_by: copy_strings(&self.group_by),
            aggregates: clone_aggs(&self.aggregates),
            expand: copy_strings(&self.expand),
            children: copy_strings(&self.children),
            raw_json: self.raw_json,
            count_only: self.count_only,
        }
    }
}

// ---------------------------------------------------------------------------
// Small text helpers
// ---------------------------------------------------------------------------

/// `1`, `true`, `yes`, `y` and `on`, after trimming and in any ASCII case.
pub open spec fn truthy_text(s: Seq<char>) -> bool {
    let l = lower(trim(s));
    l == "1"@ || l == "true"@ || l == "yes"@ || l == "y"@ || l == "on"@
}

pub fn truthy(s: &str) -> (r: bool)
    ensures
        r == truthy_text(s@),
{
    let t = trim_str(s);
    let l = to_lower(t.as_str());
    let x = l.as_str();
    str_eq(x, "1") || str_eq(x, "true") || str_eq(x, "yes") || str_eq(x, "y") || str_eq(x, "on")
}

pub open spec fn parse_i64_spec(s: Seq<char>, field: Seq<char>) -> Result<i64, ErrV> {
    match i64_of_text(trim(s)) {
        Some(v) => Ok(v),
        None => Err(e_param(field + " 必须是整数，收到: "@ + s)),
    }
}

/// The integer written in `s` (spaces around it allowed), or a parameter error naming `field`.
pub fn parse_i64(s: &str, field: &str) -> (r: Result<i64, ApiError>)
    ensures
        match r {
            Ok(v) => parse_i64_spec(s@, field@) == Ok::<i64, ErrV>(v),
            Err(e) => parse_i64_spec(s@, field@) == Err::<i64, ErrV>(e@),
        },
{
    let cs = chars_of(s);
    let t = trim_chars(&cs);
    match parse_i64_chars(&t) {
        Some(v) => Ok(v),
        None => {
            let m = cat3(field, " 必须是整数，收到: ", s);
            Err(ApiError::param(m.as_str()))
        },
    }
}

/// Splitting `s` at separators (`,`, and also `~` when `tilde`): the finished pieces
/// and the piece being read.
pub open spec fn pieces_acc(s: Seq<char>, tilde: bool) -> (Seq<Seq<char>>, Seq<char>)
    decreases s.len(),
{
    if s.len() == 0 {
        (Seq::empty(), Seq::empty())
    } else {
        let (done, cur) = pieces_acc(s.drop_last(), tilde);
        if s.last() == ',' || (tilde && s.last() == '~') {
            (keep_piece(done, cur), Seq::empty())
        } else {
            (done, cur.push(s.last()))
        }
    }
}

/// A piece counts when it is not blank.
pub open spec fn keep_piece(done: Seq<Seq<char>>, piece: Seq<char>) -> Seq<Seq<char>> {
    if trim(piece).len() > 0 {
        done.push(piece)
    } else {
        done
    }
}

/// The non-blank pieces of `s` between separators, as written.
pub open spec fn pieces(s: Seq<char>, tilde: bool) -> Seq<Seq<char>> {
    let (done, cur) = pieces_acc(s, tilde);
    keep_piece(done, cur)
}

/// The trimmed non-blank items of a comma-separated list.
pub open spec fn csv_items(s: Seq<char>) -> Seq<Seq<char>> {
    pieces(s, false).map_values(|p: Seq<char>| trim(p))
}

fn keep_piece_exec(done: &mut Vec<String>, cur: &Vec<char>)
    ensures
        final(done).deep_view() == keep_piece(old(done).deep_view(), cur@),
{
    let t = trim_chars(cur);
    if t.len() > 0 {
        let ghost before = done.deep_view();
        done.push(string_of(cur.as_slice()));
        assert(done.deep_view() =~= before.push(cur@));
    }
}

/// The non-blank pieces of `s`, as written.
fn split_pieces(s: &str, tilde: bool) -> (r: Vec<String>)
    ensures
        r.deep_view() == pieces(s@, tilde),
{
    let cs = chars_of(s);
    let mut done: Vec<String> = Vec::new();
    let mut cur: Vec<char> = Vec::new();
    let mut i: usize = 0;
    assert(done.deep_view() =~= Seq::<Seq<char>>::empty());
    assert(cs@.subrange(0, 0) =~= Seq::<char>::empty());
    while i < cs.len()
        invariant
            i <= cs.len(),
            cs@ == s@,
            pieces_acc(cs@.subrange(0, i as int), tilde) == (done.deep_view(), cur@),
        decreases cs.len() - i,
    {
        let c = cs[i];
        assert(cs@.subrange(0, i + 1).drop_last() =~= cs@.subrange(0, i as int));
        if c == ',' || (tilde && c == '~') {
            keep_piece_exec(&mut done, &cur);
            cur = Vec::new();
            assert(cur@ =~= Seq::<char>::empty());
        } else {
            cur.push(c);
        }
        i += 1;
    }
    assert(cs@.subrange(0, cs.len() as int) =~= s@);
    keep_piece_exec(&mut done, &cur);
    done
}

/// The trimmed non-blank items of a comma-separated list.
pub fn split_csv(s: &str) -> (r: Vec<String>)
    ensures
        r.deep_view() == csv_items(s@),
{
    let ps = split_pieces(s, false);
    let mut out: Vec<String> = Vec::new();
    let mut i: usize = 0;
    while i < ps.len()
        invariant
            i <= ps.len(),
            ps.deep_view() == pieces(s@, false),
            out.len() == i,
            forall|j: int| 0 <= j < i ==> #[trigger] out@[j]@ == trim(ps@[j]@),
        decreases ps.len() - i,
    {
        let t = trim_str(ps[i].as_str());
        out.push(t);
        i += 1;
    }
    assert(out.deep_view() =~= ps.deep_view().map_values(|p: Seq<char>| trim(p)));
    out
}


// ---------------------------------------------------------------------------
// Keys of the query string
// ---------------------------------------------------------------------------

/// The start of the last `__` in `s` that ends at or before `k`.
pub open spec fn dunder_before(s: Seq<char>, k: int) -> Option<int>
    decreases k,
{
    if k < 1 {
        None
    } else if k < s.len() && s[k - 1] == '_' && s[k] == '_' {
        Some(k - 1)
    } else {
        dunder_before(s, k - 1)
    }
}

/// Where the last `__` of `s` starts.
pub open spec fn last_dunder(s: Seq<char>) -> Option<int> {
    dunder_before(s, s.len() - 1)
}

/// A key split as `col__op` when its suffix names an operator.
pub open spec fn suffix_split(key: Seq<char>) -> Option<(Seq<char>, Op)> {
    match last_dunder(key) {
        Some(i) => match op_of_lower(lower(key.subrange(i + 2, key.len() as int))) {
            Some(op) => Some((key.subrange(0, i), op)),
            None => None,
        },
        None => None,
    }
}

/// `col__op`, `col` or `related.col` -> (column expression, operator), checked against the table.
pub open spec fn split_op_spec(t: Table, reg: Registry, key: Seq<char>) -> Result<(Seq<char>, Op), ErrV> {
    if t.col(key) is Some {
        Ok((key, Op::Eq))
    } else {
        match suffix_split(key) {
            Some((col, op)) => match resolve_spec(t, reg, col, op) {
                Err(e) => Err(e),
                Ok(_) => Ok((col, op)),
            },
            None => match resolve_spec(t, reg, key, Op::Eq) {
                Err(e) => Err(e),
                Ok(_) => Ok((key, Op::Eq)),
            },
        }
    }
}

fn find_last_dunder(k: &Vec<char>) -> (r: Option<usize>)
    ensures
        match r {
            Some(i) => last_dunder(k@) == Some(i as int) && i + 2 <= k.len(),
            None => last_dunder(k@) is None,
        },
{
    if k.len() < 2 {
        return None;
    }
    let mut j: usize = k.len() - 1;
    while j >= 1
        invariant
            j < k.len(),
            last_dunder(k@) == dunder_before(k@, j as int),
        decreases j,
    {
        if k[j - 1] == '_' && k[j] == '_' {
            return Some(j - 1);
        }
        j -= 1;
    }
    None
}

/// Splits a filter key into its column expression and operator, checked against the table.
pub fn split_op(t: &Table, reg: &Registry, key: &str) -> (r: Result<(String, Op), ApiError>)
    ensures
        match r {
            Ok((c, op)) => split_op_spec(*t, *reg, key@) == Ok::<(Seq<char>, Op), ErrV>((c@, op)),
            Err(e) => split_op_spec(*t, *reg, key@) == Err::<(Seq<char>, Op), ErrV>(e@),
        },
{
    if t.column(key).is_some() {
        return Ok((owned(key), Op::Eq));
    }
    let kc = chars_of(key);
    if let Some(idx) = find_last_dunder(&kc) {
        let colc = slice_chars(&kc, 0, idx);
        let opc = slice_chars(&kc, idx + 2, kc.len());
        let opname = string_of(opc.as_slice());
        if let Some(op) = Op::from_suffix(opname.as_str()) {
            let col = string_of(colc.as_slice());
            resolve(t, reg, col.as_str(), op)?;
            return Ok((col, op));
        }
    }
    resolve(t, reg, key, Op::Eq)?;
    Ok((owned(key), Op::Eq))
}

/// The definition of the column an expression reads, when it resolves.
pub open spec fn coldef_of(t: Table, reg: Registry, raw: Seq<char>, op: Op) -> Option<Column> {
    match resolve_spec(t, reg, raw, op) {
        Err(_) => None,
        Ok(ColRefV::Base(c)) => t.col(c),
        Ok(ColRefV::Json { column, .. }) => t.col(column),
        Ok(ColRefV::Related { table, column }) => match reg.lookup(table) {
            None => None,
            Some(rt) => rt.col(column),
        },
    }
}

fn coldef<'a>(t: &'a Table, reg: &'a Registry, raw: &str, op: Op) -> (r: Option<&'a Column>)
    ensures
        match r {
            Some(c) => coldef_of(*t, *reg, raw@, op) == Some(*c),
            None => coldef_of(*t, *reg, raw@, op) is None,
        },
{
    match resolve(t, reg, raw, op) {
        Err(_) => None,
        Ok(ColRef::Base(c)) => t.column(c.as_str()),
        Ok(ColRef::Json { column, .. }) => t.column(column.as_str()),
        Ok(ColRef::Related { table, column }) => match reg.table(table.as_str()) {
            Err(_) => None,
            Ok(rt) => rt.column(column.as_str()),
        },
    }
}

/// `inf`, `infinity` or `nan`, with an optional sign, in any ASCII case: the float
/// literals that are not finite numbers.
pub open spec fn float_word(t: Seq<char>) -> bool {
    let l = lower(t);
    let b = if l.len() > 0 && (l[0] == '+' || l[0] == '-') {
        l.drop_first()
    } else {
        l
    };
    b == "inf"@ || b == "infinity"@ || b == "nan"@
}

pub fn is_float_word(t: &str) -> (r: bool)
    ensures
        r == float_word(t@),
{
    let l = to_lower(t);
    let lc = chars_of(l.as_str());
    let b = if lc.len() > 0 && (lc[0] == '+' || lc[0] == '-') {
        slice_chars(&lc, 1, lc.len())
    } else {
        lc
    };
    assert(lower(t@).len() > 0 && (lower(t@)[0] == '+' || lower(t@)[0] == '-') ==> b@ =~= lower(t@).drop_first());
    let bs = string_of(b.as_slice());
    str_eq(bs.as_str(), "inf") || str_eq(bs.as_str(), "infinity") || str_eq(bs.as_str(), "nan")
}

/// The JSON value a query-string text stands for, given the column it filters.
#[verifier::opaque]
pub open spec fn conv_spec(s: Seq<char>, col: Option<Column>, numeric_json: bool) -> JsonV {
    let t = trim(s);
    if numeric_json {
        match i64_of_text(t) {
            Some(i) => JsonV::Int(i),
            None => if float_literal(t) {
                if float_word(t) {
                    JsonV::Null
                } else {
                    JsonV::Num(t)
                }
            } else {
                JsonV::Str(s)
            },
        }
    } else {
        match col {
            Some(c) => if c.ty@ == "INTEGER"@ {
                match i64_of_text(t) {
                    Some(i) => JsonV::Int(i),
                    None => JsonV::Str(s),
                }
            } else if c.ty@ == "BOOLEAN"@ {
                if truthy_text(s) {
                    JsonV::Int(1)
                } else if t == "0"@ || t == "false"@ || t == "no"@ || t == "off"@ {
                    JsonV::Int(0)
                } else {
                    JsonV::Str(s)
                }
            } else if c.ty@ == "REAL"@ {
                if float_literal(t) && !float_word(t) {
                    JsonV::Num(t)
                } else {
                    JsonV::Str(s)
                }
            } else {
                JsonV::Str(s)
            },
            None => JsonV::Str(s),
        }
    }
}

pub open spec fn opt_col(c: Option<&Column>) -> Option<Column> {
    match c {
        Some(x) => Some(*x),
        None => None,
    }
}

fn conv(s: &str, col: Option<&Column>, numeric_json: bool) -> (r: Json)
    ensures
        r@ == conv_spec(s@, opt_col(col), numeric_json),
{
    proof {
        reveal(conv_spec);
    }
    let t = trim_str(s);
    let tc = chars_of(t.as_str());
    if numeric_json {
        if let Some(i) = parse_i64_chars(&tc) {
            return Json::Int(i);
        }
        if is_float_literal(&tc) {
            if is_float_word(t.as_str()) {
                return Json::Null;
            }
            return Json::Num(t);
        }
        return Json::Str(owned(s));
    }
    match col {
        Some(c) => {
            if str_eq(c.ty.as_str(), "INTEGER") {
                match parse_i64_chars(&tc) {
                    Some(i) => Json::Int(i),
                    None => Json::Str(owned(s)),
                }
            } else if str_eq(c.ty.as_str(), "BOOLEAN") {
                if truthy(s) {
                    Json::Int(1)
                } else if str_eq(t.as_str(), "0") || str_eq(t.as_str(), "false") || str_eq(t.as_str(), "no")
                    || str_eq(t.as_str(), "off") {
                    Json::Int(0)
                } else {
                    Json::Str(owned(s))
                }
            } else if str_eq(c.ty.as_str(), "REAL") {
                if is_float_literal(&tc) && !is_float_word(t.as_str()) {
                    Json::Num(t)
                } else {
                    Json::Str(owned(s))
                }
            } else {
                Json::Str(owned(s))
            }
        },
        None => Json::Str(owned(s)),
    }
}

/// The values of every text of `raw`, split into pieces and converted, in order.
pub open spec fn convs(raw: Seq<Seq<char>>, col: Option<Column>, numeric_json: bool, tilde: bool) -> Seq<JsonV> {
    concat_all(raw.map_values(|r: Seq<char>| pieces(r, tilde).map_values(|p: Seq<char>| conv_spec(p, col, numeric_json))))
}

/// The leaf a query-string key and its texts stand for.
#[verifier::opaque]
pub open spec fn leaf_key_spec(t: Table, reg: Registry, key: Seq<char>, raw: Seq<Seq<char>>) -> Result<CondV, ErrV> {
    match split_op_spec(t, reg, key) {
        Err(e) => Err(e),
        Ok((col, op0)) => {
            let op = if op0 == Op::Eq && raw.len() > 1 {
                Op::In
            } else {
                op0
            };
            let cd = coldef_of(t, reg, col, op);
            let numeric_json = (op == Op::JsonEq || op == Op::JsonLike || op == Op::JsonLenGte);
            match op {
                Op::IsNull | Op::IsNotNull => Ok(CondV::Leaf(LeafV { column: col, op, values: Seq::empty() })),
                Op::In | Op::Nin | Op::JsonHasAll => Ok(
                    CondV::Leaf(LeafV { column: col, op, values: convs(raw, cd, false, false) }),
                ),
                Op::Between => Ok(CondV::Leaf(LeafV { column: col, op, values: convs(raw, cd, numeric_json, true) })),
                _ => if raw.len() == 0 {
                    Err(e_param("列参数 "@ + key + " 缺少取值"@))
                } else {
                    Ok(CondV::Leaf(LeafV { column: col, op, values: seq![conv_spec(raw[0], cd, numeric_json)] }))
                },
            }
        },
    }
}

/// Splits every text of `raw` and converts the pieces, in order.
fn convert_all(raw: &Vec<String>, col: Option<&Column>, numeric_json: bool, tilde: bool) -> (r: Vec<Json>)
    ensures
        jv_seq(r@) == convs(raw.deep_view(), opt_col(col), numeric_json, tilde),
{
    let ghost f = |r: Seq<char>| pieces(r, tilde).map_values(|p: Seq<char>| conv_spec(p, opt_col(col), numeric_json));
    let ghost rs = raw.deep_view().map_values(f);
    let mut out: Vec<Json> = Vec::new();
    let mut i: usize = 0;
    proof {
        assert(rs.subrange(0, 0) =~= Seq::<Seq<JsonV>>::empty());
        assert(jv_seq(out@) =~= Seq::<JsonV>::empty());
    }
    while i < raw.len()
        invariant
            i <= raw.len(),
            rs == raw.deep_view().map_values(f),
            f == (|r: Seq<char>| pieces(r, tilde).map_values(|p: Seq<char>| conv_spec(p, opt_col(col), numeric_json))),
            jv_seq(out@) == concat_all(rs.subrange(0, i as int)),
        decreases raw.len() - i,
    {
        let ps = split_pieces(raw[i].as_str(), tilde);
        let ghost base = jv_seq(out@);
        let mut j: usize = 0;
        while j < ps.len()
            invariant
                j <= ps.len(),
                ps.deep_view() == pieces(raw@[i as int]@, tilde),
                jv_seq(out@) == base + ps.deep_view().subrange(0, j as int).map_values(
                    |p: Seq<char>| conv_spec(p, opt_col(col), numeric_json),
                ),
            decreases ps.len() - j,
        {
            let v = conv(ps[j].as_str(), col, numeric_json);
            let ghost before = out@;
            out.push(v);
            proof {
                lemma_jv_seq_push(before, v);
                assert(ps.deep_view().subrange(0, j + 1).map_values(
                    |p: Seq<char>| conv_spec(p, opt_col(col), numeric_json),
                ) =~= ps.deep_view().subrange(0, j as int).map_values(
                    |p: Seq<char>| conv_spec(p, opt_col(col), numeric_json),
                ).push(conv_spec(ps@[j as int]@, opt_col(col), numeric_json)));
                assert(jv_seq(out@) =~= base + ps.deep_view().subrange(0, j + 1).map_values(
                    |p: Seq<char>| conv_spec(p, opt_col(col), numeric_json),
                ));
            }
            j += 1;
        }
        proof {
            assert(ps.deep_view().subrange(0, ps.len() as int) =~= ps.deep_view());
            assert(rs[i as int] == f(raw.deep_view()[i as int]));
            lemma_concat_step(rs, i as int);
        }
        i += 1;
    }
    proof {
        assert(rs.subrange(0, raw.len() as int) =~= rs);
    }
    out
}

/// The leaf condition for a query-string key (`col__op`) and its texts.  A key given
/// more than once is an `in` test; `in`/`nin`/`json_has_all` and `between` take
/// comma-separated (and for `between`, `~`-separated) lists.
pub fn leaf_from_key(t: &Table, reg: &Registry, key: &str, raw: &Vec<String>) -> (r: Result<Cond, ApiError>)
    ensures
        match r {
            Ok(c) => leaf_key_spec(*t, *reg, key@, raw.deep_view()) == Ok::<CondV, ErrV>(c@),
            Err(e) => leaf_key_spec(*t, *reg, key@, raw.deep_view()) == Err::<CondV, ErrV>(e@),
        },
{
    proof {
        reveal(leaf_key_spec);
    }
    let (col, op0) = split_op(t, reg, key)?;
    let op = if op0 == Op::Eq && raw.len() > 1 {
        Op::In
    } else {
        op0
    };
    let cd = coldef(t, reg, col.as_str(), op);
    let numeric_json = op == Op::JsonEq || op == Op::JsonLike || op == Op::JsonLenGte;
    let values: Vec<Json> = match op {
        Op::IsNull | Op::IsNotNull => Vec::new(),
        Op::In | Op::Nin | Op::JsonHasAll => convert_all(raw, cd, false, false),
        Op::Between => convert_all(raw, cd, numeric_json, true),
        _ => {
            if raw.len() == 0 {
                let m = cat3("列参数 ", key, " 缺少取值");
                return Err(ApiError::param(m.as_str()));
            }
            let v = conv(raw[0].as_str(), cd, numeric_json);
            let mut vs: Vec<Json> = Vec::new();
            vs.push(v);
            proof {
                lemma_jv_seq_push(Seq::empty(), v);
                assert(Seq::<Json>::empty().push(v) =~= vs@);
                assert(jv_seq(vs@) =~= seq![v@]);
            }
            vs
        },
    };
    proof {
        if op == Op::IsNull || op == Op::IsNotNull {
            assert(jv_seq(values@) =~= Seq::<JsonV>::empty());
        }
    }
    Ok(Cond::Leaf(Leaf::new(col, op, values)))
}

// ---------------------------------------------------------------------------
// or[..] / and[..] / filter[..] keys
// ---------------------------------------------------------------------------

/// `s` without the run of `c` at its end.
pub open spec fn strip_trailing(s: Seq<char>, c: char) -> Seq<char>
    decreases s.len(),
{
    if s.len() > 0 && s.last() == c {
        strip_trailing(s.drop_last(), c)
    } else {
        s
    }
}

fn strip_trailing_exec(v: &Vec<char>, c: char) -> (r: Vec<char>)
    ensures
        r@ == strip_trailing(v@, c),
{
    let mut n: usize = v.len();
    assert(v@.subrange(0, n as int) =~= v@);
    while n > 0 && v[n - 1] == c
        invariant
            n <= v.len(),
            strip_trailing(v@, c) == strip_trailing(v@.subrange(0, n as int), c),
        decreases n,
    {
        assert(v@.subrange(0, n as int).drop_last() =~= v@.subrange(0, n - 1));
        n -= 1;
    }
    slice_chars(v, 0, n)
}

/// The first place where `a` is directly followed by `b`, from `k` on.
pub open spec fn find_pair_from(s: Seq<char>, k: int, a: char, b: char) -> Option<int>
    decreases s.len() - k,
{
    if k < 0 || k + 1 >= s.len() {
        None
    } else if s[k] == a && s[k + 1] == b {
        Some(k)
    } else {
        find_pair_from(s, k + 1, a, b)
    }
}

fn find_pair(v: &Vec<char>, a: char, b: char) -> (r: Option<usize>)
    ensures
        match r {
            Some(i) => find_pair_from(v@, 0, a, b) == Some(i as int) && i + 2 <= v.len(),
            None => find_pair_from(v@, 0, a, b) is None,
        },
{
    let mut k: usize = 0;
    while k < v.len() && v.len() - k > 1
        invariant
            find_pair_from(v@, 0, a, b) == find_pair_from(v@, k as int, a, b),
        decreases v.len() - k,
    {
        if v[k] == a && v[k + 1] == b {
            return Some(k);
        }
        k += 1;
    }
    None
}

/// `or[..]`/`and[..]` keys, outer brackets already removed: `col`, `0][col` or
/// `[0][col]` -> (group number, column key).
#[verifier::opaque]
pub open spec fn group_key_spec(inner: Seq<char>) -> (usize, Seq<char>) {
    let s = trim(inner);
    let second = match find_pair_from(s, 0, ']', '[') {
        Some(pos) => match usize_of_text(s.subrange(0, pos)) {
            Some(idx) => Some((idx, trim(strip_trailing(trim(s.subrange(pos + 2, s.len() as int)), ']')))),
            None => None,
        },
        None => None,
    };
    match second {
        Some(r) => r,
        None => if s.len() > 0 && s[0] == '[' && first_index(s.drop_first(), ']') is Some {
            let st = s.drop_first();
            let end = first_index(st, ']')->0;
            let idx = match usize_of_text(st.subrange(0, end)) {
                Some(i) => i,
                None => 0,
            };
            let r0 = trim(st.subrange(end + 1, st.len() as int));
            let r1 = if r0.len() > 0 && r0[0] == '[' {
                r0.drop_first()
            } else {
                r0
            };
            let r2 = if r1.len() > 0 && r1.last() == ']' {
                r1.drop_last()
            } else {
                r1
            };
            (idx, trim(r2))
        } else {
            (0, trim(strip_trailing(s, ']')))
        },
    }
}

pub fn parse_group_key(inner: &str) -> (r: (usize, String))
    ensures
        r.0 == group_key_spec(inner@).0,
        r.1@ == group_key_spec(inner@).1,
{
    proof {
        reveal(group_key_spec);
    }
    let sc = chars_of(inner);
    let s = trim_chars(&sc);
    if let Some(pos) = find_pair(&s, ']', '[') {
        let head = slice_chars(&s, 0, pos);
        if let Some(idx) = parse_usize_chars(&head) {
            let tail = slice_chars(&s, pos + 2, s.len());
            let t1 = trim_chars(&tail);
            let t2 = strip_trailing_exec(&t1, ']');
            let t3 = trim_chars(&t2);
            return (idx, string_of(t3.as_slice()));
        }
    }
    if s.len() > 0 && s[0] == '[' {
        let st = slice_chars(&s, 1, s.len());
        assert(st@ =~= s@.drop_first());
        if let Some(end) = find_char(&st, ']') {
            let head = slice_chars(&st, 0, end);
            let idx = match parse_usize_chars(&head) {
                Some(i) => i,
                None => 0,
            };
            let tail = slice_chars(&st, end + 1, st.len());
            let r0 = trim_chars(&tail);
            let r1 = if r0.len() > 0 && r0[0] == '[' {
                let x = slice_chars(&r0, 1, r0.len());
                assert(x@ =~= r0@.drop_first());
                x
            } else {
                r0
            };
            let r2 = if r1.len() > 0 && r1[r1.len() - 1] == ']' {
                let x = slice_chars(&r1, 0, r1.len() - 1);
                assert(x@ =~= r1@.drop_last());
                x
            } else {
                r1
            };
            let r3 = trim_chars(&r2);
            return (idx, string_of(r3.as_slice()));
        }
    }
    let t = strip_trailing_exec(&s, ']');
    let t2 = trim_chars(&t);
    (0, string_of(t2.as_slice()))
}

/// `name[inner]` -> `inner`.
pub open spec fn bracket_spec(key: Seq<char>, name: Seq<char>) -> Option<Seq<char>> {
    let p = name + seq!['['];
    if p.len() <= key.len() && key.subrange(0, p.len() as int) == p && key.len() > 0 && key.last() == ']' {
        Some(key.subrange(p.len() as int, key.len() - 1))
    } else {
        None
    }
}

pub fn unwrap_bracket(key: &str, name: &str) -> (r: Option<String>)
    ensures
        match r {
            Some(x) => bracket_spec(key@, name@) == Some(x@),
            None => bracket_spec(key@, name@) is None,
        },
{
    let kc = chars_of(key);
    let mut p = chars_of(name);
    p.push('[');
    assert(p@ =~= name@ + seq!['[']);
    if has_prefix(&kc, &p) && kc.len() > 0 && kc[kc.len() - 1] == ']' {
        if p.len() > kc.len() - 1 {
            assert(kc@.subrange(0, p.len() as int)[p.len() - 1] == '[');
            return None;
        }
        let inner = slice_chars(&kc, p.len(), kc.len() - 1);
        return Some(string_of(inner.as_slice()));
    }
    None
}

// ---------------------------------------------------------------------------
// order_by, aggregates, select
// ---------------------------------------------------------------------------

/// One `order_by` item: `-col`, `col:dir` or `col`.
#[verifier::opaque]
pub open spec fn order_item_spec(t: Table, reg: Registry, item: Seq<char>) -> Result<OrderByV, ErrV> {
    let (col, dir) = if item.len() > 0 && item[0] == '-' {
        (item.drop_first(), "desc"@)
    } else {
        match first_index(item, ':') {
            Some(i) => (trim(item.subrange(0, i)), trim(item.subrange(i + 1, item.len() as int))),
            None => (item, "asc"@),
        }
    };
    match resolve_spec(t, reg, col, Op::Eq) {
        Err(e) => Err(e),
        Ok(_) => match direction_spec(dir) {
            Err(e) => Err(e),
            Ok((d, nl)) => Ok(OrderByV { column: col, direction: d, nulls_last: nl }),
        },
    }
}

/// All `order_by` items of the texts, at most five of them.
pub open spec fn order_spec(t: Table, reg: Registry, vals: Seq<Seq<char>>) -> Result<Seq<OrderByV>, ErrV> {
    let items = concat_all(vals.map_values(|v: Seq<char>| csv_items(v)));
    let rs = items.map_values(|it: Seq<char>| order_item_spec(t, reg, it));
    if items.len() <= 5 {
        collect(rs)
    } else {
        match collect(rs.subrange(0, 6)) {
            Err(e) => Err(e),
            Ok(_) => Err(e_over_limit("order_by 最多 5 列"@)),
        }
    }
}

fn order_item(t: &Table, reg: &Registry, item: &String) -> (r: Result<OrderBy, ApiError>)
    ensures
        match r {
            Ok(o) => order_item_spec(*t, *reg, item@) == Ok::<OrderByV, ErrV>(o@),
            Err(e) => order_item_spec(*t, *reg, item@) == Err::<OrderByV, ErrV>(e@),
        },
{
    proof {
        reveal(order_item_spec);
    }
    let ic = chars_of(item.as_str());
    let (col, dir) = if ic.len() > 0 && ic[0] == '-' {
        let rest = slice_chars(&ic, 1, ic.len());
        assert(rest@ =~= ic@.drop_first());
        (string_of(rest.as_slice()), owned("desc"))
    } else {
        match find_char(&ic, ':') {
            Some(i) => {
                let a = slice_chars(&ic, 0, i);
                let b = slice_chars(&ic, i + 1, ic.len());
                let at = trim_chars(&a);
                let bt = trim_chars(&b);
                (string_of(at.as_slice()), string_of(bt.as_slice()))
            },
            None => (copy_string(item), owned("asc")),
        }
    };
    resolve(t, reg, col.as_str(), Op::Eq)?;
    let (d, nl) = normalize_direction(dir.as_str())?;
    Ok(OrderBy { column: col, direction: owned(d), nulls_last: nl })
}

/// The sort columns of `order_by` texts (comma-separated items, at most five).
pub fn parse_order_by(t: &Table, reg: &Registry, vals: &Vec<String>) -> (r: Result<Vec<OrderBy>, ApiError>)
    ensures
        match r {
            Ok(v) => order_spec(*t, *reg, vals.deep_view()) == Ok::<Seq<OrderByV>, ErrV>(orders_view(v@)),
            Err(e) => order_spec(*t, *reg, vals.deep_view()) == Err::<Seq<OrderByV>, ErrV>(e@),
        },
{
    let ghost items = concat_all(vals.deep_view().map_values(|v: Seq<char>| csv_items(v)));
    let ghost rs = items.map_values(|it: Seq<char>| order_item_spec(*t, *reg, it));
    let mut flat: Vec<String> = Vec::new();
    let mut i: usize = 0;
    assert(vals.deep_view().map_values(|v: Seq<char>| csv_items(v)).subrange(0, 0) =~= Seq::<Seq<Seq<char>>>::empty());
    assert(flat.deep_view() =~= Seq::<Seq<char>>::empty());
    while i < vals.len()
        invariant
            i <= vals.len(),
            flat.deep_view() == concat_all(vals.deep_view().map_values(|v: Seq<char>| csv_items(v)).subrange(0, i as int)),
        decreases vals.len() - i,
    {
        let part = split_csv(vals[i].as_str());
        let ghost before = flat.deep_view();
        let mut j: usize = 0;
        while j < part.len()
            invariant
                j <= part.len(),
                flat.deep_view() == before + part.deep_view().subrange(0, j as int),
            decreases part.len() - j,
        {
            let ghost fb = flat.deep_view();
            flat.push(copy_string(&part[j]));
            assert(flat.deep_view() =~= fb.push(part@[j as int]@));
            assert(before + part.deep_view().subrange(0, j + 1) =~= (before + part.deep_view().subrange(0, j as int)).push(part.deep_view()[j as int]));
            j += 1;
        }
        proof {
            assert(part.deep_view().subrange(0, part.len() as int) =~= part.deep_view());
            lemma_concat_step(vals.deep_view().map_values(|v: Seq<char>| csv_items(v)), i as int);
        }
        i += 1;
    }
    assert(vals.deep_view().map_values(|v: Seq<char>| csv_items(v)).subrange(0, vals.len() as int) =~= vals.deep_view().map_values(|v: Seq<char>| csv_items(v)));
    assert(flat.deep_view() == items);
    let mut out: Vec<OrderBy> = Vec::new();
    let mut k: usize = 0;
    assert(rs.subrange(0, 0) =~= Seq::<Result<OrderByV, ErrV>>::empty());
    assert(orders_view(out@) =~= Seq::<OrderByV>::empty());
    while k < flat.len()
        invariant
            k <= flat.len(),
            k <= 5,
            flat.deep_view() == items,
            items == concat_all(vals.deep_view().map_values(|v: Seq<char>| csv_items(v))),
            rs == items.map_values(|it: Seq<char>| order_item_spec(*t, *reg, it)),
            collect(rs.subrange(0, k as int)) == Ok::<Seq<OrderByV>, ErrV>(orders_view(out@)),
            out.len() == k,
        decreases flat.len() - k,
    {
        proof {
            lemma_collect_step(rs, k as int);
        }
        match order_item(t, reg, &flat[k]) {
            Ok(o) => {
                let ghost before = out@;
                out.push(o);
                assert(orders_view(out@) =~= orders_view(before).push(o@));
            },
            Err(e) => {
                proof {
                    if items.len() <= 5 {
                        lemma_collect_prefix_err(rs, k + 1);
                    } else {
                        lemma_collect_prefix_err(rs.subrange(0, 6), k + 1);
                        assert(rs.subrange(0, 6).subrange(0, k + 1) =~= rs.subrange(0, k + 1));
                    }
                }
                return Err(e);
            },
        }
        if out.len() > 5 {
            proof {
                assert(rs.subrange(0, 6) =~= rs.subrange(0, k + 1));
            }
            return Err(ApiError::over_limit("order_by 最多 5 列"));
        }
        k += 1;
    }
    proof {
        lemma_collect_all(rs);
    }
    Ok(out)
}

/// The last place of `c` in `s`.
pub open spec fn last_index_of(s: Seq<char>, c: char) -> Option<int> {
    if s.contains(c) {
        Some(choose|i: int| 0 <= i < s.len() && s[i] == c && forall|k: int| i < k < s.len() ==> s[k] != c)
    } else {
        None
    }
}

fn rfind_char(v: &Vec<char>, c: char) -> (r: Option<usize>)
    ensures
        match r {
            Some(i) => last_index_of(v@, c) == Some(i as int) && i < v.len() && v@[i as int] == c,
            None => last_index_of(v@, c) is None,
        },
{
    let mut n: usize = v.len();
    while n > 0
        invariant
            n <= v.len(),
            forall|k: int| n <= k < v.len() ==> v@[k] != c,
        decreases n,
    {
        if v[n - 1] == c {
            let i = n - 1;
            proof {
                assert(v@.contains(c));
                let j = choose|j: int| 0 <= j < v@.len() && v@[j] == c && forall|k: int| j < k < v@.len() ==> v@[k] != c;
                assert(0 <= i < v@.len() && v@[i as int] == c && forall|k: int| i < k < v@.len() ==> v@[k] != c);
                if j < i {
                    assert(v@[i as int] != c);
                }
                if j > i {
                    assert(v@[j] != c);
                }
            }
            return Some(i);
        }
        n -= 1;
    }
    assert(!v@.contains(c)) by {
        if v@.contains(c) {
            let j = choose|j: int| 0 <= j < v@.len() && v@[j] == c;
            assert(v@[j] != c);
        }
    }
    None
}

pub open spec fn agg_func(f: Seq<char>) -> bool {
    f == "count"@ || f == "count_distinct"@ || f == "sum"@ || f == "avg"@ || f == "min"@ || f == "max"@
}

/// `func(col):alias` -> (`func(col)`, `alias`).
pub open spec fn agg_parts(item: Seq<char>) -> (Seq<char>, Seq<char>) {
    match first_index(item, ':') {
        Some(i) => (trim(item.subrange(0, i)), trim(item.subrange(i + 1, item.len() as int))),
        None => (item, Seq::empty()),
    }
}

/// What cutting an aggregate item whose last `)` comes before its first `(`
/// runs into: the text between them cannot be taken, and no request is read.
pub open spec fn agg_stuck() -> ErrV {
    crate::error::err(0, 500, "聚合表达式的括号顺序颠倒"@)
}

fn stuck_error() -> (r: ApiError)
    ensures
        r@ == agg_stuck(),
{
    ApiError::new(0, 500, "聚合表达式的括号顺序颠倒")
}

/// Whether `e` is the stop of an aggregate item that cannot be cut.
pub fn is_stuck(e: &ApiError) -> (r: bool)
    ensures
        r == (e@ == agg_stuck()),
{
    let r = e.code == 0 && e.status == 500 && str_eq(e.message.as_str(), "聚合表达式的括号顺序颠倒") && e.errors.len() == 0
        && e.allowed_columns.is_none();
    proof {
        reveal_strlit("聚合表达式的括号顺序颠倒");
        assert(crate::error::field_errs_view(e.errors@).len() == e.errors@.len());
        if e.errors.len() == 0 {
            assert(crate::error::field_errs_view(e.errors@) =~= Seq::<crate::error::FieldErrV>::empty());
        }
        if r {
            assert(e@ == agg_stuck());
        } else {
            assert(e@ != agg_stuck());
        }
    }
    r
}

/// `c` with every `.` turned into `_`.
pub open spec fn dots_to_underscores(c: Seq<char>) -> Seq<char> {
    c.map_values(|x: char| if x == '.' { '_' } else { x })
}

#[verifier::opaque]
pub open spec fn agg_item_spec(t: Table, reg: Registry, item: Seq<char>) -> Result<AggV, ErrV> {
    let (call, alias) = agg_parts(item);
    match first_index(call, '(') {
        None => Err(e_param("聚合表达式格式应为 func(col)[:alias]，收到: "@ + item)),
        Some(o) => match last_index_of(call, ')') {
            None => Err(e_param("聚合表达式缺少右括号: "@ + item)),
            Some(c) => if c < o {
                Err(agg_stuck())
            } else {
                let func = lower(trim(call.subrange(0, o)));
                let inner = trim(call.subrange(o + 1, c));
                if !agg_func(func) {
                    Err(e_param("不支持的聚合函数 "@ + func + "，可用: count/count_distinct/sum/avg/min/max"@))
                } else if inner == "*"@ || inner.len() == 0 {
                    Ok(AggV { func, column: None, alias: if alias.len() == 0 { func } else { alias } })
                } else {
                    match resolve_spec(t, reg, inner, Op::Eq) {
                        Err(e) => Err(e),
                        Ok(_) => Ok(
                            AggV {
                                func,
                                column: Some(inner),
                                alias: if alias.len() == 0 {
                                    func + "_"@ + dots_to_underscores(inner)
                                } else {
                                    alias
                                },
                            },
                        ),
                    }
                }
            },
        },
    }
}

/// The aggregates of `sum(amount):total,count(*):cnt`, in order.
pub open spec fn agg_spec(t: Table, reg: Registry, s: Seq<char>) -> Result<Seq<AggV>, ErrV> {
    collect(csv_items(s).map_values(|it: Seq<char>| agg_item_spec(t, reg, it)))
}

fn dots_exec(c: &String) -> (r: String)
    ensures
        r@ == dots_to_underscores(c@),
{
    let cs = chars_of(c.as_str());
    let mut out: Vec<char> = Vec::new();
    let mut i: usize = 0;
    while i < cs.len()
        invariant
            i <= cs.len(),
            cs@ == c@,
            out@ == dots_to_underscores(cs@.subrange(0, i as int)),
        decreases cs.len() - i,
    {
        out.push(if cs[i] == '.' { '_' } else { cs[i] });
        assert(out@ =~= dots_to_underscores(cs@.subrange(0, i + 1)));
        i += 1;
    }
    assert(cs@.subrange(0, cs.len() as int) =~= cs@);
    string_of(out.as_slice())
}

#[verifier::spinoff_prover]
#[verifier::rlimit(80)]
fn agg_item(t: &Table, reg: &Registry, item: &String) -> (r: Result<Agg, ApiError>)
    ensures
        match r {
            Ok(a) => agg_item_spec(*t, *reg, item@) == Ok::<AggV, ErrV>(a@),
            Err(e) => agg_item_spec(*t, *reg, item@) == Err::<AggV, ErrV>(e@),
        },
{
    proof {
        reveal(agg_item_spec);
    }
    let ic = chars_of(item.as_str());
    let (call, alias) = match find_char(&ic, ':') {
        Some(i) => {
            let a = slice_chars(&ic, 0, i);
            let b = slice_chars(&ic, i + 1, ic.len());
            (trim_chars(&a), trim_chars(&b))
        },
        None => (ic, Vec::new()),
    };
    assert(call@ == agg_parts(item@).0 && alias@ == agg_parts(item@).1);
    let open = match find_char(&call, '(') {
        Some(o) => o,
        None => {
            let m = cat("聚合表达式格式应为 func(col)[:alias]，收到: ", item.as_str());
            return Err(ApiError::param(m.as_str()));
        },
    };
    let close = match rfind_char(&call, ')') {
        Some(c) => c,
        None => {
            let m = cat("聚合表达式缺少右括号: ", item.as_str());
            return Err(ApiError::param(m.as_str()));
        },
    };
    if close < open {
        return Err(stuck_error());
    }
    assert(call@[open as int] == '(' && call@[close as int] == ')');
    agg_call(t, reg, item, &call, alias, open, close)
}

/// The aggregate of an item once its call is cut at `open` and `close`.
#[verifier::spinoff_prover]
#[verifier::rlimit(60)]
fn agg_call(t: &Table, reg: &Registry, item: &String, call: &Vec<char>, alias: Vec<char>, open: usize, close: usize) -> (r: Result<Agg, ApiError>)
    requires
        open < close < call.len(),
        call@ == agg_parts(item@).0,
        alias@ == agg_parts(item@).1,
        first_index(call@, '(') == Some(open as int),
        last_index_of(call@, ')') == Some(close as int),
    ensures
        match r {
            Ok(a) => agg_item_spec(*t, *reg, item@) == Ok::<AggV, ErrV>(a@),
            Err(e) => agg_item_spec(*t, *reg, item@) == Err::<AggV, ErrV>(e@),
        },
{
    proof {
        reveal(agg_item_spec);
    }
    let fc = slice_chars(call, 0, open);
    let ft = trim_chars(&fc);
    let fs = string_of(ft.as_slice());
    let func = to_lower(fs.as_str());
    let ic2 = slice_chars(call, open + 1, close);
    let it = trim_chars(&ic2);
    let inner = string_of(it.as_slice());
    let f = func.as_str();
    if !(str_eq(f, "count") || str_eq(f, "count_distinct") || str_eq(f, "sum") || str_eq(f, "avg") || str_eq(f, "min")
        || str_eq(f, "max")) {
        let m = cat3("不支持的聚合函数 ", f, "，可用: count/count_distinct/sum/avg/min/max");
        return Err(ApiError::param(m.as_str()));
    }
    let alias_s = string_of(alias.as_slice());
    if str_eq(inner.as_str(), "*") || inner.as_str().is_empty() {
        proof {
            reveal_strlit("*");
        }
        let al = if alias.len() == 0 { copy_string(&func) } else { alias_s };
        return Ok(Agg { func, column: None, alias: al });
    }
    proof {
        reveal_strlit("*");
    }
    resolve(t, reg, inner.as_str(), Op::Eq)?;
    let al = if alias.len() == 0 {
        let d = dots_exec(&inner);
        cat3(func.as_str(), "_", d.as_str())
    } else {
        alias_s
    };
    Ok(Agg { func, column: Some(inner), alias: al })
}

/// Parses `sum(amount):total,count(*):cnt` into aggregates; stops with
/// `agg_stuck` at an item that cannot be cut.
fn agg_list(t: &Table, reg: &Registry, s: &str) -> (r: Result<Vec<Agg>, ApiError>)
    ensures
        match r {
            Ok(v) => agg_spec(*t, *reg, s@) == Ok::<Seq<AggV>, ErrV>(aggs_view(v@)),
            Err(e) => agg_spec(*t, *reg, s@) == Err::<Seq<AggV>, ErrV>(e@),
        },
{
    let items = split_csv(s);
    let ghost rs = csv_items(s@).map_values(|it: Seq<char>| agg_item_spec(*t, *reg, it));
    let mut out: Vec<Agg> = Vec::new();
    let mut k: usize = 0;
    assert(rs.subrange(0, 0) =~= Seq::<Result<AggV, ErrV>>::empty());
    assert(aggs_view(out@) =~= Seq::<AggV>::empty());
    while k < items.len()
        invariant
            k <= items.len(),
            items.deep_view() == csv_items(s@),
            rs == csv_items(s@).map_values(|it: Seq<char>| agg_item_spec(*t, *reg, it)),
            collect(rs.subrange(0, k as int)) == Ok::<Seq<AggV>, ErrV>(aggs_view(out@)),
        decreases items.len() - k,
    {
        proof {
            lemma_collect_step(rs, k as int);
        }
        match agg_item(t, reg, &items[k]) {
            Ok(a) => {
                let ghost before = out@;
                out.push(a);
                assert(aggs_view(out@) =~= aggs_view(before).push(a@));
            },
            Err(e) => {
                proof {
                    lemma_collect_prefix_err(rs, k + 1);
                }
                return Err(e);
            },
        }
        k += 1;
    }
    proof {
        lemma_collect_all(rs);
    }
    Ok(out)
}

/// Parses `sum(amount):total,count(*):cnt` into aggregates.  The text is one on
/// which no item that cannot be cut (its last `)` before its first `(`) is
/// reached before an answer.
pub fn parse_agg(t: &Table, reg: &Registry, s: &str) -> (r: Result<Vec<Agg>, ApiError>)
    requires
        agg_spec(*t, *reg, s@) != Err::<Seq<AggV>, ErrV>(agg_stuck()),
    ensures
        match r {
            Ok(v) => agg_spec(*t, *reg, s@) == Ok::<Seq<AggV>, ErrV>(aggs_view(v@)),
            Err(e) => agg_spec(*t, *reg, s@) == Err::<Seq<AggV>, ErrV>(e@),
        },
{
    agg_list(t, reg, s)
}

/// Every selected and grouped column must resolve; the first that does not is the error.
pub open spec fn select_check(t: Table, reg: Registry, select: Seq<Seq<char>>, group_by: Seq<Seq<char>>) -> Result<(), ErrV> {
    match collect((select + group_by).map_values(|c: Seq<char>| resolve_spec(t, reg, c, Op::Eq))) {
        Err(e) => Err(e),
        Ok(_) => Ok(()),
    }
}

fn validate_select(t: &Table, reg: &Registry, spec: &QuerySpec) -> (r: Result<(), ApiError>)
    ensures
        match r {
            Ok(_) => select_check(*t, *reg, spec@.select, spec@.group_by) is Ok,
            Err(e) => select_check(*t, *reg, spec@.select, spec@.group_by) == Err::<(), ErrV>(e@),
        },
{
    let ghost all = spec.select.deep_view() + spec.group_by.deep_view();
    let ghost rs = all.map_values(|c: Seq<char>| resolve_spec(*t, *reg, c, Op::Eq));
    let mut k: usize = 0;
    assert(rs.subrange(0, 0) =~= Seq::<Result<ColRefV, ErrV>>::empty());
    while k < spec.select.len()
        invariant
            k <= spec.select.len(),
            all == spec.select.deep_view() + spec.group_by.deep_view(),
            rs == all.map_values(|c: Seq<char>| resolve_spec(*t, *reg, c, Op::Eq)),
            collect(rs.subrange(0, k as int)) is Ok,
        decreases spec.select.len() - k,
    {
        proof {
            lemma_collect_step(rs, k as int);
        }
        assert(spec.select@[k as int]@ == all[k as int]);
        match resolve(t, reg, spec.select[k].as_str(), Op::Eq) {
            Ok(_) => {},
            Err(e) => {
                proof {
                    lemma_collect_prefix_err(rs, k + 1);
                }
                return Err(e);
            },
        }
        k += 1;
    }
    let n1 = spec.select.len();
    let mut g: usize = 0;
    while g < spec.group_by.len()
        invariant
            g <= spec.group_by.len(),
            n1 == spec.select.len(),
            all == spec.select.deep_view() + spec.group_by.deep_view(),
            rs == all.map_values(|c: Seq<char>| resolve_spec(*t, *reg, c, Op::Eq)),
            collect(rs.subrange(0, n1 + g)) is Ok,
        decreases spec.group_by.len() - g,
    {
        proof {
            lemma_collect_step(rs, n1 + g);
        }
        assert(spec.group_by@[g as int]@ == all[n1 + g]);
        match resolve(t, reg, spec.group_by[g].as_str(), Op::Eq) {
            Ok(_) => {},
            Err(e) => {
                proof {
                    lemma_collect_prefix_err(rs, n1 + g + 1);
                }
                return Err(e);
            },
        }
        g += 1;
    }
    proof {
        lemma_collect_all(rs);
    }
    Ok(())
}


// ---------------------------------------------------------------------------
// GET query string
// ---------------------------------------------------------------------------

/// The (name, value) pairs of an `application/x-www-form-urlencoded` text, in order,
/// percent-decoded and with `+` read as a space.
pub uninterp spec fn form_pairs(s: Seq<char>) -> Seq<(Seq<char>, Seq<char>)>;

/// `form_urlencoded::parse` on the bytes of `s`, each decoded name and value made an
/// owned `String`.  The contract only names the result: that it depends on `s` alone.
#[verifier::external_body]
pub(crate) fn urlencoded_pairs(s: &str) -> (r: Vec<(String, String)>)
    ensures
        crate::schema::pairs_view(r@) == form_pairs(s@),
{
    form_urlencoded::parse(s.as_bytes()).map(|(k, v)| (k.into_owned(), v.into_owned())).collect()
}

/// A key with all its values, in the order they were given.
pub type KeyVals = (String, Vec<String>);

pub open spec fn kv_view(p: KeyVals) -> (Seq<char>, Seq<Seq<char>>) {
    (p.0@, p.1.deep_view())
}

pub open spec fn kvs_view(s: Seq<KeyVals>) -> Seq<(Seq<char>, Seq<Seq<char>>)> {
    s.map_values(|p: KeyVals| kv_view(p))
}

/// The first entry of `g` from `i` on whose key is `k`.
pub open spec fn key_slot(g: Seq<(Seq<char>, Seq<Seq<char>>)>, k: Seq<char>, i: int) -> Option<int>
    decreases g.len() - i,
{
    if i < 0 || i >= g.len() {
        None
    } else if g[i].0 == k {
        Some(i)
    } else {
        key_slot(g, k, i + 1)
    }
}

/// Pairs gathered by name, names in order of first appearance, values in order given.
pub open spec fn group_pairs(p: Seq<(Seq<char>, Seq<char>)>) -> Seq<(Seq<char>, Seq<Seq<char>>)>
    decreases p.len(),
{
    if p.len() == 0 {
        Seq::empty()
    } else {
        let g = group_pairs(p.drop_last());
        let k = p.last().0;
        let v = p.last().1;
        match key_slot(g, k, 0) {
            Some(i) => g.update(i, (k, g[i].1.push(v))),
            None => g.push((k, seq![v])),
        }
    }
}

pub proof fn lemma_key_slot(g: Seq<(Seq<char>, Seq<Seq<char>>)>, k: Seq<char>, i: int)
    requires
        0 <= i,
    ensures
        key_slot(g, k, i) matches Some(j) ==> i <= j < g.len() && g[j].0 == k,
        key_slot(g, k, i) is None ==> forall|j: int| i <= j < g.len() ==> g[j].0 != k,
    decreases g.len() - i,
{
    if i < g.len() && g[i].0 != k {
        lemma_key_slot(g, k, i + 1);
    }
}

pub proof fn lemma_group_nonempty(p: Seq<(Seq<char>, Seq<char>)>)
    ensures
        forall|j: int| 0 <= j < group_pairs(p).len() ==> #[trigger] group_pairs(p)[j].1.len() >= 1,
    decreases p.len(),
{
    if p.len() > 0 {
        lemma_group_nonempty(p.drop_last());
        lemma_key_slot(group_pairs(p.drop_last()), p.last().0, 0);
    }
}

/// Gathers the pairs by name.
fn group_by_key(pairs: &Vec<(String, String)>) -> (r: Vec<KeyVals>)
    ensures
        kvs_view(r@) == group_pairs(crate::schema::pairs_view(pairs@)),
{
    let ghost pv = crate::schema::pairs_view(pairs@);
    let mut kv: Vec<KeyVals> = Vec::new();
    let mut i: usize = 0;
    assert(pv.subrange(0, 0) =~= Seq::<(Seq<char>, Seq<char>)>::empty());
    assert(kvs_view(kv@) =~= Seq::<(Seq<char>, Seq<Seq<char>>)>::empty());
    while i < pairs.len()
        invariant
            i <= pairs.len(),
            pv == crate::schema::pairs_view(pairs@),
            kvs_view(kv@) == group_pairs(pv.subrange(0, i as int)),
        decreases pairs.len() - i,
    {
        let ghost g = kvs_view(kv@);
        let ghost sub = pv.subrange(0, i + 1);
        assert(sub.drop_last() =~= pv.subrange(0, i as int));
        assert(sub.last() == (pairs@[i as int].0@, pairs@[i as int].1@));
        let k = &pairs[i].0;
        let v = &pairs[i].1;
        let mut j: usize = 0;
        let mut found = false;
        while j < kv.len()
            invariant_except_break
                !found,
            invariant
                j <= kv.len(),
                g == kvs_view(kv@),
                key_slot(g, k@, 0) == key_slot(g, k@, j as int),
            ensures
                found ==> j < kv.len() && key_slot(g, k@, 0) == Some(j as int),
                !found ==> key_slot(g, k@, 0) is None,
            decreases kv.len() - j,
        {
            if str_eq(kv[j].0.as_str(), k.as_str()) {
                found = true;
                break;
            }
            j += 1;
        }
        if found {
            proof {
                lemma_key_slot(g, k@, 0);
            }
            let ghost kv0 = kv@;
            let mut e = kv.remove(j);
            assert(e == kv0[j as int]);
            let ghost old_vals = e.1.deep_view();
            e.1.push(copy_string(v));
            assert(e.1.deep_view() =~= old_vals.push(v@));
            let ghost e2 = e;
            kv.insert(j, e);
            assert(kv@ =~= kv0.update(j as int, e2));
            assert(kvs_view(kv@) =~= g.update(j as int, (k@, g[j as int].1.push(v@))));
        } else {
            let mut vs: Vec<String> = Vec::new();
            vs.push(copy_string(v));
            assert(vs.deep_view() =~= seq![v@]);
            kv.push((copy_string(k), vs));
            assert(kvs_view(kv@) =~= g.push((k@, seq![v@])));
        }
        i += 1;
    }
    assert(pv.subrange(0, pairs.len() as int) =~= pv);
    kv
}

/// Groups of keys by number, in increasing number, keys in the order given.
pub open spec fn group_add(
    g: Seq<(usize, Seq<(Seq<char>, Seq<Seq<char>>)>)>,
    idx: usize,
    item: (Seq<char>, Seq<Seq<char>>),
) -> Seq<(usize, Seq<(Seq<char>, Seq<Seq<char>>)>)>
    decreases g.len(),
{
    if g.len() == 0 {
        seq![(idx, seq![item])]
    } else if g[0].0 == idx {
        seq![(idx, g[0].1.push(item))] + g.drop_first()
    } else if idx < g[0].0 {
        seq![(idx, seq![item])] + g
    } else {
        seq![g[0]] + group_add(g.drop_first(), idx, item)
    }
}

pub type Groups = Vec<(usize, Vec<KeyVals>)>;

pub open spec fn groups_view(g: Seq<(usize, Vec<KeyVals>)>) -> Seq<(usize, Seq<(Seq<char>, Seq<Seq<char>>)>)> {
    g.map_values(|e: (usize, Vec<KeyVals>)| (e.0, kvs_view(e.1@)))
}

/// `group_add` once the place is known: every earlier group has a smaller number.
proof fn lemma_group_add_at(
    g: Seq<(usize, Seq<(Seq<char>, Seq<Seq<char>>)>)>,
    idx: usize,
    item: (Seq<char>, Seq<Seq<char>>),
    j: int,
)
    requires
        0 <= j <= g.len(),
        forall|q: int| 0 <= q < j ==> g[q].0 < idx,
        j < g.len() ==> g[j].0 >= idx,
    ensures
        group_add(g, idx, item) == (if j < g.len() && g[j].0 == idx {
            g.update(j, (idx, g[j].1.push(item)))
        } else {
            g.subrange(0, j) + seq![(idx, seq![item])] + g.subrange(j, g.len() as int)
        }),
    decreases j,
{
    if j == 0 {
        if g.len() == 0 {
            assert(g.subrange(0, 0) + seq![(idx, seq![item])] + g.subrange(0, 0) =~= seq![(idx, seq![item])]);
        } else if g[0].0 == idx {
            assert(seq![(idx, g[0].1.push(item))] + g.drop_first() =~= g.update(0, (idx, g[0].1.push(item))));
        } else {
            assert(g.subrange(0, 0) + seq![(idx, seq![item])] + g.subrange(0, g.len() as int) =~= seq![(idx, seq![item])] + g);
        }
    } else {
        let t = g.drop_first();
        assert forall|q: int| 0 <= q < j - 1 implies t[q].0 < idx by {
            assert(t[q] == g[q + 1]);
        }
        lemma_group_add_at(t, idx, item, j - 1);
        if j < g.len() && g[j].0 == idx {
            assert(seq![g[0]] + t.update(j - 1, (idx, t[j - 1].1.push(item))) =~= g.update(j, (idx, g[j].1.push(item))));
        } else {
            assert(seq![g[0]] + (t.subrange(0, j - 1) + seq![(idx, seq![item])] + t.subrange(j - 1, t.len() as int))
                =~= g.subrange(0, j) + seq![(idx, seq![item])] + g.subrange(j, g.len() as int));
        }
    }
}

fn group_insert(g: &mut Groups, idx: usize, key: String, vals: &Vec<String>)
    ensures
        groups_view(final(g)@) == group_add(groups_view(old(g)@), idx, (key@, vals.deep_view())),
{
    let ghost gv = groups_view(g@);
    let ghost item = (key@, vals.deep_view());
    let mut j: usize = 0;
    while j < g.len() && g[j].0 < idx
        invariant
            j <= g.len(),
            gv == groups_view(g@),
            forall|q: int| 0 <= q < j ==> gv[q].0 < idx,
        decreases g.len() - j,
    {
        j += 1;
    }
    proof {
        lemma_group_add_at(gv, idx, item, j as int);
    }
    if j < g.len() && g[j].0 == idx {
        let mut e = g.remove(j);
        let ghost before = kvs_view(e.1@);
        e.1.push((key, copy_strings(vals)));
        assert(kvs_view(e.1@) =~= before.push(item));
        g.insert(j, e);
        assert(groups_view(g@) =~= gv.update(j as int, (idx, gv[j as int].1.push(item))));
    } else {
        let mut items: Vec<KeyVals> = Vec::new();
        items.push((key, copy_strings(vals)));
        assert(kvs_view(items@) =~= seq![item]);
        g.insert(j, (idx, items));
        assert(groups_view(g@) =~= gv.subrange(0, j as int) + seq![(idx, seq![item])] + gv.subrange(j as int, gv.len() as int));
    }
}

/// What the keys read so far have set.
#[derive(Debug)]
pub struct QueryState {
    pub spec: QuerySpec,
    pub flat: Vec<KeyVals>,
    pub ors: Groups,
    pub ands: Groups,
    pub logic_or: bool,
    pub where_expr: Option<String>,
}

pub struct QueryStateV {
    pub spec: QuerySpecV,
    pub flat: Seq<(Seq<char>, Seq<Seq<char>>)>,
    pub ors: Seq<(usize, Seq<(Seq<char>, Seq<Seq<char>>)>)>,
    pub ands: Seq<(usize, Seq<(Seq<char>, Seq<Seq<char>>)>)>,
    pub logic_or: bool,
    pub where_expr: Option<Seq<char>>,
}

impl View for QueryState {
    type V = QueryStateV;

    open spec fn view(&self) -> QueryStateV {
        QueryStateV {
            spec: self.spec@,
            flat: kvs_view(self.flat@),
            ors: groups_view(self.ors@),
            ands: groups_view(self.ands@),
            logic_or: self.logic_or,
            where_expr: opt_str(self.where_expr),
        }
    }
}

pub open spec fn start_state() -> QueryStateV {
    QueryStateV {
        spec: empty_query(),
        flat: Seq::empty(),
        ors: Seq::empty(),
        ands: Seq::empty(),
        logic_or: false,
        where_expr: None,
    }
}

/// What one query-string key (with its values) does to the state.
#[verifier::opaque]
pub open spec fn query_step(t: Table, reg: Registry, st: QueryStateV, key: Seq<char>, vals: Seq<Seq<char>>) -> Result<QueryStateV, ErrV> {
    let sp = st.spec;
    let v0 = vals[0];
    if key == "page"@ {
        match parse_i64_spec(v0, "page"@) {
            Err(e) => Err(e),
            Ok(v) => Ok(QueryStateV { spec: QuerySpecV { page: Some(v), ..sp }, ..st }),
        }
    } else if key == "page_size"@ {
        match parse_i64_spec(v0, "page_size"@) {
            Err(e) => Err(e),
            Ok(v) => if v > MAX_PAGE_SIZE {
                Err(e_over_limit("page_size 上限为 200，收到 "@ + int_text(v as int)))
            } else {
                Ok(QueryStateV { spec: QuerySpecV { page_size: Some(v), ..sp }, ..st })
            },
        }
    } else if key == "limit"@ {
        match parse_i64_spec(v0, "limit"@) {
            Err(e) => Err(e),
            Ok(v) => Ok(QueryStateV { spec: QuerySpecV { limit: Some(v), ..sp }, ..st }),
        }
    } else if key == "offset"@ {
        match parse_i64_spec(v0, "offset"@) {
            Err(e) => Err(e),
            Ok(v) => Ok(QueryStateV { spec: QuerySpecV { offset: Some(v), ..sp }, ..st }),
        }
    } else if key == "order_by"@ {
        match order_spec(t, reg, vals) {
            Err(e) => Err(e),
            Ok(o) => Ok(QueryStateV { spec: QuerySpecV { order_by: o, ..sp }, ..st }),
        }
    } else if key == "select"@ {
        Ok(QueryStateV { spec: QuerySpecV { select: sp.select + concat_all(vals.map_values(|v: Seq<char>| csv_items(v))), ..sp }, ..st })
    } else if key == "group_by"@ {
        Ok(QueryStateV { spec: QuerySpecV { group_by: sp.group_by + concat_all(vals.map_values(|v: Seq<char>| csv_items(v))), ..sp }, ..st })
    } else if key == "agg"@ || key == "aggregates"@ {
        match collect(vals.map_values(|v: Seq<char>| agg_spec(t, reg, v))) {
            Err(e) => Err(e),
            Ok(aa) => Ok(QueryStateV { spec: QuerySpecV { aggregates: sp.aggregates + concat_all(aa), ..sp }, ..st }),
        }
    } else if key == "expand"@ {
        Ok(QueryStateV { spec: QuerySpecV { expand: sp.expand + concat_all(vals.map_values(|v: Seq<char>| csv_items(v))), ..sp }, ..st })
    } else if key == "children"@ {
        Ok(QueryStateV { spec: QuerySpecV { children: sp.children + concat_all(vals.map_values(|v: Seq<char>| csv_items(v))), ..sp }, ..st })
    } else if key == "distinct"@ {
        Ok(QueryStateV { spec: QuerySpecV { distinct: truthy_text(v0), ..sp }, ..st })
    } else if key == "raw"@ {
        Ok(QueryStateV { spec: QuerySpecV { raw_json: truthy_text(v0), ..sp }, ..st })
    } else if key == "count_only"@ {
        Ok(QueryStateV { spec: QuerySpecV { count_only: truthy_text(v0), ..sp }, ..st })
    } else if key == "q"@ {
        Ok(QueryStateV { spec: QuerySpecV { q: Some(v0), ..sp }, ..st })
    } else if key == "logic"@ {
        Ok(QueryStateV { logic_or: lower(trim(v0)) == "or"@, ..st })
    } else if key == "where"@ {
        Ok(QueryStateV { where_expr: Some(v0), ..st })
    } else if key == "format"@ || key == "filename"@ || key == "_t"@ || key == "ts"@ {
        Ok(st)
    } else {
        match bracket_spec(key, "filter"@) {
            Some(inner) => Ok(QueryStateV { flat: st.flat.push((inner, vals)), ..st }),
            None => match bracket_spec(key, "or"@) {
                Some(inner) => {
                    let (idx, k) = group_key_spec(inner);
                    Ok(QueryStateV { ors: group_add(st.ors, idx, (k, vals)), ..st })
                },
                None => match bracket_spec(key, "and"@) {
                    Some(inner) => {
                        let (idx, k) = group_key_spec(inner);
                        Ok(QueryStateV { ands: group_add(st.ands, idx, (k, vals)), ..st })
                    },
                    None => Ok(QueryStateV { flat: st.flat.push((key, vals)), ..st }),
                },
            },
        }
    }
}

/// The state after every gathered key, in order; the first refusal wins.
pub open spec fn query_fold(t: Table, reg: Registry, kv: Seq<(Seq<char>, Seq<Seq<char>>)>) -> Result<QueryStateV, ErrV>
    decreases kv.len(),
{
    if kv.len() == 0 {
        Ok(start_state())
    } else {
        match query_fold(t, reg, kv.drop_last()) {
            Err(e) => Err(e),
            Ok(st) => query_step(t, reg, st, kv.last().0, kv.last().1),
        }
    }
}

/// The leaves of the keys of one group, in order.
pub open spec fn group_leaves(t: Table, reg: Registry, items: Seq<(Seq<char>, Seq<Seq<char>>)>) -> Result<Seq<CondV>, ErrV> {
    collect(items.map_values(|p: (Seq<char>, Seq<Seq<char>>)| leaf_key_spec(t, reg, p.0, p.1)))
}

pub open spec fn or_group(t: Table, reg: Registry, items: Seq<(Seq<char>, Seq<Seq<char>>)>) -> Result<Option<CondV>, ErrV> {
    match group_leaves(t, reg, items) {
        Err(e) => Err(e),
        Ok(ls) => Ok(combine(ls, true)),
    }
}

pub open spec fn and_group(t: Table, reg: Registry, items: Seq<(Seq<char>, Seq<Seq<char>>)>) -> Result<CondV, ErrV> {
    match group_leaves(t, reg, items) {
        Err(e) => Err(e),
        Ok(ls) => Ok(CondV::And(ls)),
    }
}

/// The conditions that are present, in order.
pub open spec fn somes(s: Seq<Option<CondV>>) -> Seq<CondV>
    decreases s.len(),
{
    if s.len() == 0 {
        Seq::empty()
    } else {
        match s.last() {
            Some(c) => somes(s.drop_last()).push(c),
            None => somes(s.drop_last()),
        }
    }
}

pub open spec fn opt_seq(c: Option<CondV>) -> Seq<CondV> {
    match c {
        Some(x) => seq![x],
        None => Seq::empty(),
    }
}

/// The request once every key is read: the filters, then the `or[n]` groups, the
/// `and[n]` groups and the `where` expression, all joined by AND.
#[verifier::opaque]
pub open spec fn query_finish(t: Table, reg: Registry, st: QueryStateV) -> Result<QuerySpecV, ErrV> {
    match group_leaves(t, reg, st.flat) {
        Err(e) => Err(e),
        Ok(ls) => {
            let c1 = if st.logic_or {
                opt_seq(combine(ls, true))
            } else {
                ls
            };
            match collect(st.ors.map_values(|g: (usize, Seq<(Seq<char>, Seq<Seq<char>>)>)| or_group(t, reg, g.1))) {
                Err(e) => Err(e),
                Ok(os) => match collect(st.ands.map_values(|g: (usize, Seq<(Seq<char>, Seq<Seq<char>>)>)| and_group(t, reg, g.1))) {
                    Err(e) => Err(e),
                    Ok(aa) => {
                        let c3 = c1 + somes(os) + aa;
                        let c4 = match st.where_expr {
                            Some(w) => match where_spec(t, reg, w) {
                                Err(e) => Err(e),
                                Ok(c) => Ok(c3.push(c)),
                            },
                            None => Ok(c3),
                        };
                        match c4 {
                            Err(e) => Err(e),
                            Ok(cs) => match select_check(t, reg, st.spec.select, st.spec.group_by) {
                                Err(e) => Err(e),
                                Ok(_) => Ok(QuerySpecV { cond: combine(cs, false), ..st.spec }),
                            },
                        }
                    },
                },
            }
        },
    }
}

/// The request a list of decoded query-string pairs stands for.
pub open spec fn query_pairs_spec(t: Table, reg: Registry, pairs: Seq<(Seq<char>, Seq<char>)>) -> Result<QuerySpecV, ErrV> {
    match query_fold(t, reg, group_pairs(pairs)) {
        Err(e) => Err(e),
        Ok(st) => query_finish(t, reg, st),
    }
}

/// Appends the comma-separated items of every text of `vals` to `dst`.
fn append_csv(dst: &mut Vec<String>, vals: &Vec<String>)
    ensures
        final(dst).deep_view() == old(dst).deep_view() + concat_all(vals.deep_view().map_values(|v: Seq<char>| csv_items(v))),
{
    let ghost start = dst.deep_view();
    let ghost m = vals.deep_view().map_values(|v: Seq<char>| csv_items(v));
    let mut i: usize = 0;
    assert(m.subrange(0, 0) =~= Seq::<Seq<Seq<char>>>::empty());
    assert(start + concat_all(m.subrange(0, 0)) =~= start);
    while i < vals.len()
        invariant
            i <= vals.len(),
            m == vals.deep_view().map_values(|v: Seq<char>| csv_items(v)),
            dst.deep_view() == start + concat_all(m.subrange(0, i as int)),
        decreases vals.len() - i,
    {
        let part = split_csv(vals[i].as_str());
        let ghost before = dst.deep_view();
        let mut j: usize = 0;
        assert(before + part.deep_view().subrange(0, 0) =~= before);
        while j < part.len()
            invariant
                j <= part.len(),
                dst.deep_view() == before + part.deep_view().subrange(0, j as int),
            decreases part.len() - j,
        {
            let ghost db = dst.deep_view();
            dst.push(copy_string(&part[j]));
            assert(dst.deep_view() =~= db.push(part@[j as int]@));
            assert(before + part.deep_view().subrange(0, j + 1) =~= (before + part.deep_view().subrange(0, j as int)).push(part.deep_view()[j as int]));
            j += 1;
        }
        proof {
            assert(part.deep_view().subrange(0, part.len() as int) =~= part.deep_view());
            lemma_concat_step(m, i as int);
            assert(start + concat_all(m.subrange(0, i + 1)) =~= before + part.deep_view());
        }
        i += 1;
    }
    assert(m.subrange(0, vals.len() as int) =~= m);
}

/// Parses the aggregate lists of every text of `vals`, in order.
fn parse_aggs(t: &Table, reg: &Registry, vals: &Vec<String>) -> (r: Result<Vec<Agg>, ApiError>)
    ensures
        match r {
            Ok(v) => collect(vals.deep_view().map_values(|x: Seq<char>| agg_spec(*t, *reg, x))) matches Ok(aa)
                && aggs_view(v@) == concat_all(aa),
            Err(e) => collect(vals.deep_view().map_values(|x: Seq<char>| agg_spec(*t, *reg, x))) == Err::<Seq<Seq<AggV>>, ErrV>(e@),
        },
{
    let ghost rs = vals.deep_view().map_values(|x: Seq<char>| agg_spec(*t, *reg, x));
    let mut out: Vec<Agg> = Vec::new();
    let mut i: usize = 0;
    assert(rs.subrange(0, 0) =~= Seq::<Result<Seq<AggV>, ErrV>>::empty());
    assert(aggs_view(out@) =~= concat_all(Seq::<Seq<AggV>>::empty()));
    while i < vals.len()
        invariant
            i <= vals.len(),
            rs == vals.deep_view().map_values(|x: Seq<char>| agg_spec(*t, *reg, x)),
            collect(rs.subrange(0, i as int)) matches Ok(aa) && aggs_view(out@) == concat_all(aa),
        decreases vals.len() - i,
    {
        proof {
            lemma_collect_step(rs, i as int);
        }
        match agg_list(t, reg, vals[i].as_str()) {
            Ok(v) => {
                let ghost aa = collect(rs.subrange(0, i as int))->Ok_0;
                let ghost before = aggs_view(out@);
                let mut j: usize = 0;
                assert(before + aggs_view(v@).subrange(0, 0) =~= before);
                while j < v.len()
                    invariant
                        j <= v.len(),
                        aggs_view(out@) == before + aggs_view(v@).subrange(0, j as int),
                    decreases v.len() - j,
                {
                    let a = &v[j];
                    let column = match &a.column {
                        Some(c) => Some(copy_string(c)),
                        None => None,
                    };
                    let ghost ob = aggs_view(out@);
                    out.push(Agg { func: copy_string(&a.func), column, alias: copy_string(&a.alias) });
                    assert(aggs_view(out@) =~= ob.push(v@[j as int]@));
                    assert(before + aggs_view(v@).subrange(0, j + 1) =~= (before + aggs_view(v@).subrange(0, j as int)).push(aggs_view(v@)[j as int]));
                    j += 1;
                }
                proof {
                    assert(aggs_view(v@).subrange(0, v.len() as int) =~= aggs_view(v@));
                    assert(aa.push(aggs_view(v@)).drop_last() =~= aa);
                }
            },
            Err(e) => {
                proof {
                    lemma_collect_prefix_err(rs, i + 1);
                }
                return Err(e);
            },
        }
        i += 1;
    }
    proof {
        lemma_collect_all(rs);
    }
    Ok(out)
}

fn first_text(vals: &Vec<String>) -> (r: String)
    requires
        vals.len() >= 1,
    ensures
        r@ == vals@[0]@,
{
    copy_string(&vals[0])
}

/// Applies one query-string key (with its values) to the state.
fn apply_param(st: &mut QueryState, t: &Table, reg: &Registry, key: &String, vals: &Vec<String>) -> (r: Result<(), ApiError>)
    requires
        vals.len() >= 1,
    ensures
        match r {
            Ok(_) => query_step(*t, *reg, old(st)@, key@, vals.deep_view()) == Ok::<QueryStateV, ErrV>(final(st)@),
            Err(e) => query_step(*t, *reg, old(st)@, key@, vals.deep_view()) == Err::<QueryStateV, ErrV>(e@),
        },
{
    proof {
        reveal(query_step);
    }
    let k = key.as_str();
    let v0 = vals[0].as_str();
    assert(vals.deep_view()[0] == v0@);
    if str_eq(k, "page") {
        let v = parse_i64(v0, "page")?;
        st.spec.page = Some(v);
        Ok(())
    } else if str_eq(k, "page_size") {
        let v = parse_i64(v0, "page_size")?;
        if v > MAX_PAGE_SIZE {
            let n = i64_text(v);
            let m = cat("page_size 上限为 200，收到 ", n.as_str());
            return Err(ApiError::over_limit(m.as_str()));
        }
        st.spec.page_size = Some(v);
        Ok(())
    } else if str_eq(k, "limit") {
        let v = parse_i64(v0, "limit")?;
        st.spec.limit = Some(v);
        Ok(())
    } else if str_eq(k, "offset") {
        let v = parse_i64(v0, "offset")?;
        st.spec.offset = Some(v);
        Ok(())
    } else if str_eq(k, "order_by") {
        let o = parse_order_by(t, reg, vals)?;
        st.spec.order_by = o;
        Ok(())
    } else if str_eq(k, "select") {
        append_csv(&mut st.spec.select, vals);
        Ok(())
    } else if str_eq(k, "group_by") {
        append_csv(&mut st.spec.group_by, vals);
        Ok(())
    } else if str_eq(k, "agg") || str_eq(k, "aggregates") {
        let added = parse_aggs(t, reg, vals)?;
        let ghost before = aggs_view(st.spec.aggregates@);
        let mut j: usize = 0;
        assert(before + aggs_view(added@).subrange(0, 0) =~= before);
        while j < added.len()
            invariant
                j <= added.len(),
                aggs_view(st.spec.aggregates@) == before + aggs_view(added@).subrange(0, j as int),
                st.spec.select == old(st).spec.select,
                st.spec.cond == old(st).spec.cond,
                st.spec.q == old(st).spec.q,
                st.spec.order_by == old(st).spec.order_by,
                st.spec.page == old(st).spec.page,
                st.spec.page_size == old(st).spec.page_size,
                st.spec.limit == old(st).spec.limit,
                st.spec.offset == old(st).spec.offset,
                st.spec.distinct == old(st).spec.distinct,
                st.spec.group_by == old(st).spec.group_by,
                st.spec.expand == old(st).spec.expand,
                st.spec.children == old(st).spec.children,
                st.spec.raw_json == old(st).spec.raw_json,
                st.spec.count_only == old(st).spec.count_only,
                st.flat == old(st).flat,
                st.ors == old(st).ors,
                st.ands == old(st).ands,
                st.logic_or == old(st).logic_or,
                st.where_expr == old(st).where_expr,
            decreases added.len() - j,
        {
            let a = &added[j];
            let column = match &a.column {
                Some(c) => Some(copy_string(c)),
                None => None,
            };
            let ghost ob = aggs_view(st.spec.aggregates@);
            st.spec.aggregates.push(Agg { func: copy_string(&a.func), column, alias: copy_string(&a.alias) });
            assert(aggs_view(st.spec.aggregates@) =~= ob.push(added@[j as int]@));
            assert(before + aggs_view(added@).subrange(0, j + 1) =~= (before + aggs_view(added@).subrange(0, j as int)).push(aggs_view(added@)[j as int]));
            j += 1;
        }
        assert(aggs_view(added@).subrange(0, added.len() as int) =~= aggs_view(added@));
        Ok(())
    } else if str_eq(k, "expand") {
        append_csv(&mut st.spec.expand, vals);
        Ok(())
    } else if str_eq(k, "children") {
        append_csv(&mut st.spec.children, vals);
        Ok(())
    } else if str_eq(k, "distinct") {
        st.spec.distinct = truthy(v0);
        Ok(())
    } else if str_eq(k, "raw") {
        st.spec.raw_json = truthy(v0);
        Ok(())
    } else if str_eq(k, "count_only") {
        st.spec.count_only = truthy(v0);
        Ok(())
    } else if str_eq(k, "q") {
        st.spec.q = Some(first_text(vals));
        Ok(())
    } else if str_eq(k, "logic") {
        let tv = trim_str(v0);
        let l = to_lower(tv.as_str());
        st.logic_or = str_eq(l.as_str(), "or");
        Ok(())
    } else if str_eq(k, "where") {
        st.where_expr = Some(first_text(vals));
        Ok(())
    } else if str_eq(k, "format") || str_eq(k, "filename") || str_eq(k, "_t") || str_eq(k, "ts") {
        Ok(())
    } else if let Some(inner) = unwrap_bracket(k, "filter") {
        let ghost fb = kvs_view(st.flat@);
        st.flat.push((inner, copy_strings(vals)));
        assert(kvs_view(st.flat@) =~= fb.push((inner@, vals.deep_view())));
        Ok(())
    } else if let Some(inner) = unwrap_bracket(k, "or") {
        let (idx, gk) = parse_group_key(inner.as_str());
        group_insert(&mut st.ors, idx, gk, vals);
        Ok(())
    } else if let Some(inner) = unwrap_bracket(k, "and") {
        let (idx, gk) = parse_group_key(inner.as_str());
        group_insert(&mut st.ands, idx, gk, vals);
        Ok(())
    } else {
        let ghost fb = kvs_view(st.flat@);
        st.flat.push((copy_string(key), copy_strings(vals)));
        assert(kvs_view(st.flat@) =~= fb.push((key@, vals.deep_view())));
        Ok(())
    }
}

/// The leaves of the keys of one group, in order.
fn leaves_of(t: &Table, reg: &Registry, items: &Vec<KeyVals>) -> (r: Result<Vec<Cond>, ApiError>)
    ensures
        match r {
            Ok(v) => group_leaves(*t, *reg, kvs_view(items@)) == Ok::<Seq<CondV>, ErrV>(cv_seq(v@)),
            Err(e) => group_leaves(*t, *reg, kvs_view(items@)) == Err::<Seq<CondV>, ErrV>(e@),
        },
{
    let ghost rs = kvs_view(items@).map_values(|p: (Seq<char>, Seq<Seq<char>>)| leaf_key_spec(*t, *reg, p.0, p.1));
    let mut out: Vec<Cond> = Vec::new();
    let mut i: usize = 0;
    assert(rs.subrange(0, 0) =~= Seq::<Result<CondV, ErrV>>::empty());
    assert(cv_seq(out@) =~= Seq::<CondV>::empty());
    while i < items.len()
        invariant
            i <= items.len(),
            rs == kvs_view(items@).map_values(|p: (Seq<char>, Seq<Seq<char>>)| leaf_key_spec(*t, *reg, p.0, p.1)),
            collect(rs.subrange(0, i as int)) == Ok::<Seq<CondV>, ErrV>(cv_seq(out@)),
        decreases items.len() - i,
    {
        proof {
            lemma_collect_step(rs, i as int);
        }
        match leaf_from_key(t, reg, items[i].0.as_str(), &items[i].1) {
            Ok(c) => {
                proof {
                    lemma_cv_seq_push(out@, c);
                }
                out.push(c);
            },
            Err(e) => {
                proof {
                    lemma_collect_prefix_err(rs, i + 1);
                }
                return Err(e);
            },
        }
        i += 1;
    }
    proof {
        lemma_collect_all(rs);
    }
    Ok(out)
}

fn push_cond(v: &mut Vec<Cond>, c: Cond)
    ensures
        cv_seq(final(v)@) == cv_seq(old(v)@).push(c@),
{
    proof {
        lemma_cv_seq_push(v@, c);
    }
    v.push(c);
}

/// The request once every key has been read.
fn finish(t: &Table, reg: &Registry, st: QueryState) -> (r: Result<QuerySpec, ApiError>)
    ensures
        match r {
            Ok(s) => query_finish(*t, *reg, st@) == Ok::<QuerySpecV, ErrV>(s@),
            Err(e) => query_finish(*t, *reg, st@) == Err::<QuerySpecV, ErrV>(e@),
        },
{
    proof {
        reveal(query_finish);
    }
    let ghost sv = st@;
    let ls = leaves_of(t, reg, &st.flat)?;
    let ghost c1 = if sv.logic_or {
        opt_seq(combine(cv_seq(ls@), true))
    } else {
        cv_seq(ls@)
    };
    let mut conds: Vec<Cond> = Vec::new();
    if st.logic_or {
        if let Some(c) = Cond::or(ls) {
            push_cond(&mut conds, c);
            assert(cv_seq(conds@) =~= seq![c@]);
        } else {
            assert(cv_seq(conds@) =~= Seq::<CondV>::empty());
        }
    } else {
        conds = ls;
    }
    assert(cv_seq(conds@) == c1);
    let ghost ors = sv.ors.map_values(|g: (usize, Seq<(Seq<char>, Seq<Seq<char>>)>)| or_group(*t, *reg, g.1));
    let mut i: usize = 0;
    assert(ors.subrange(0, 0) =~= Seq::<Result<Option<CondV>, ErrV>>::empty());
    assert(c1 + somes(Seq::<Option<CondV>>::empty()) =~= c1);
    while i < st.ors.len()
        invariant
            i <= st.ors.len(),
            sv == st@,
            ors == sv.ors.map_values(|g: (usize, Seq<(Seq<char>, Seq<Seq<char>>)>)| or_group(*t, *reg, g.1)),
            collect(ors.subrange(0, i as int)) matches Ok(os) && cv_seq(conds@) == c1 + somes(os),
            group_leaves(*t, *reg, sv.flat) is Ok,
        decreases st.ors.len() - i,
    {
        proof {
            lemma_collect_step(ors, i as int);
        }
        let ghost os = collect(ors.subrange(0, i as int))->Ok_0;
        assert(sv.ors[i as int].1 == kvs_view(st.ors@[i as int].1@));
        match leaves_of(t, reg, &st.ors[i].1) {
            Ok(ls) => {
                let c = Cond::or(ls);
                assert(os.push(opt_cond(c)).drop_last() =~= os);
                match c {
                    Some(x) => {
                        push_cond(&mut conds, x);
                        assert(c1 + somes(os.push(opt_cond(c))) =~= (c1 + somes(os)).push(x@));
                    },
                    None => {
                        assert(c1 + somes(os.push(opt_cond(c))) =~= c1 + somes(os));
                    },
                }
            },
            Err(e) => {
                proof {
                    lemma_collect_prefix_err(ors, i + 1);
                    reveal(query_finish);
                }
                return Err(e);
            },
        }
        i += 1;
    }
    proof {
        lemma_collect_all(ors);
    }
    let ghost os = collect(ors)->Ok_0;
    let ghost ands = sv.ands.map_values(|g: (usize, Seq<(Seq<char>, Seq<Seq<char>>)>)| and_group(*t, *reg, g.1));
    let mut j: usize = 0;
    assert(ands.subrange(0, 0) =~= Seq::<Result<CondV, ErrV>>::empty());
    assert(c1 + somes(os) + Seq::<CondV>::empty() =~= c1 + somes(os));
    while j < st.ands.len()
        invariant
            j <= st.ands.len(),
            sv == st@,
            collect(ors) == Ok::<Seq<Option<CondV>>, ErrV>(os),
            ors == sv.ors.map_values(|g: (usize, Seq<(Seq<char>, Seq<Seq<char>>)>)| or_group(*t, *reg, g.1)),
            ands == sv.ands.map_values(|g: (usize, Seq<(Seq<char>, Seq<Seq<char>>)>)| and_group(*t, *reg, g.1)),
            collect(ands.subrange(0, j as int)) matches Ok(aa) && cv_seq(conds@) == c1 + somes(os) + aa,
            group_leaves(*t, *reg, sv.flat) is Ok,
        decreases st.ands.len() - j,
    {
        proof {
            lemma_collect_step(ands, j as int);
        }
        let ghost aa = collect(ands.subrange(0, j as int))->Ok_0;
        assert(sv.ands[j as int].1 == kvs_view(st.ands@[j as int].1@));
        match leaves_of(t, reg, &st.ands[j].1) {
            Ok(ls) => {
                let c = Cond::And(ls);
                push_cond(&mut conds, c);
                assert(c1 + somes(os) + aa.push(c@) =~= (c1 + somes(os) + aa).push(c@));
            },
            Err(e) => {
                proof {
                    lemma_collect_prefix_err(ands, j + 1);
                    reveal(query_finish);
                }
                return Err(e);
            },
        }
        j += 1;
    }
    proof {
        lemma_collect_all(ands);
    }
    match &st.where_expr {
        Some(w) => {
            let c = parse(t, reg, w.as_str())?;
            push_cond(&mut conds, c);
        },
        None => {},
    }
    validate_select(t, reg, &st.spec)?;
    let mut spec = st.spec;
    spec.cond = Cond::and(conds);
    Ok(spec)
}

proof fn lemma_fold_prefix_err(t: Table, reg: Registry, kv: Seq<(Seq<char>, Seq<Seq<char>>)>, k: int)
    requires
        0 <= k <= kv.len(),
        query_fold(t, reg, kv.subrange(0, k)) is Err,
    ensures
        query_fold(t, reg, kv) == query_fold(t, reg, kv.subrange(0, k)),
    decreases kv.len() - k,
{
    if k < kv.len() {
        assert(kv.subrange(0, k + 1).drop_last() =~= kv.subrange(0, k));
        lemma_fold_prefix_err(t, reg, kv, k + 1);
    } else {
        assert(kv.subrange(0, k) =~= kv);
    }
}

/// The request that a list of decoded query-string pairs stands for, on pairs
/// whose reading does not run into an aggregate item that cannot be cut.
pub fn spec_from_pairs(t: &Table, reg: &Registry, pairs: &Vec<(String, String)>) -> (r: Result<QuerySpec, ApiError>)
    requires
        query_pairs_spec(*t, *reg, crate::schema::pairs_view(pairs@)) != Err::<QuerySpecV, ErrV>(agg_stuck()),
    ensures
        match r {
            Ok(s) => query_pairs_spec(*t, *reg, crate::schema::pairs_view(pairs@)) == Ok::<QuerySpecV, ErrV>(s@),
            Err(e) => query_pairs_spec(*t, *reg, crate::schema::pairs_view(pairs@)) == Err::<QuerySpecV, ErrV>(e@),
        },
{
    pairs_request(t, reg, pairs)
}

/// The request of the pairs, or `agg_stuck` where reading them runs into an
/// aggregate item that cannot be cut.
fn pairs_request(t: &Table, reg: &Registry, pairs: &Vec<(String, String)>) -> (r: Result<QuerySpec, ApiError>)
    ensures
        match r {
            Ok(s) => query_pairs_spec(*t, *reg, crate::schema::pairs_view(pairs@)) == Ok::<QuerySpecV, ErrV>(s@),
            Err(e) => query_pairs_spec(*t, *reg, crate::schema::pairs_view(pairs@)) == Err::<QuerySpecV, ErrV>(e@),
        },
{
    let kv = group_by_key(pairs);
    let ghost g = kvs_view(kv@);
    proof {
        lemma_group_nonempty(crate::schema::pairs_view(pairs@));
    }
    let mut st = QueryState {
        spec: QuerySpec::default(),
        flat: Vec::new(),
        ors: Vec::new(),
        ands: Vec::new(),
        logic_or: false,
        where_expr: None,
    };
    assert(kvs_view(st.flat@) =~= Seq::<(Seq<char>, Seq<Seq<char>>)>::empty());
    assert(groups_view(st.ors@) =~= Seq::<(usize, Seq<(Seq<char>, Seq<Seq<char>>)>)>::empty());
    assert(groups_view(st.ands@) =~= Seq::<(usize, Seq<(Seq<char>, Seq<Seq<char>>)>)>::empty());
    assert(g.subrange(0, 0) =~= Seq::<(Seq<char>, Seq<Seq<char>>)>::empty());
    let mut i: usize = 0;
    while i < kv.len()
        invariant
            i <= kv.len(),
            g == kvs_view(kv@),
            g == group_pairs(crate::schema::pairs_view(pairs@)),
            forall|j: int| 0 <= j < g.len() ==> #[trigger] g[j].1.len() >= 1,
            query_fold(*t, *reg, g.subrange(0, i as int)) == Ok::<QueryStateV, ErrV>(st@),
        decreases kv.len() - i,
    {
        let ghost sub = g.subrange(0, i + 1);
        assert(sub.drop_last() =~= g.subrange(0, i as int));
        assert(sub.last() == g[i as int]);
        assert(g[i as int] == kv_view(kv@[i as int]));
        assert(g[i as int].1.len() >= 1);
        assert(kv@[i as int].1.deep_view().len() == kv@[i as int].1.len());
        assert(kv@[i as int].1.len() >= 1);
        match apply_param(&mut st, t, reg, &kv[i].0, &kv[i].1) {
            Ok(_) => {},
            Err(e) => {
                proof {
                    lemma_fold_prefix_err(*t, *reg, g, i + 1);
                }
                return Err(e);
            },
        }
        i += 1;
    }
    assert(g.subrange(0, kv.len() as int) =~= g);
    finish(t, reg, st)
}

/// What `spec_from_query` gives for a raw query string: nothing to parse gives the
/// empty request; reading that runs into an aggregate item whose `)` comes
/// before its `(` has no answer.
pub open spec fn query_text_spec(t: Table, reg: Registry, raw: Option<Seq<char>>) -> Option<Result<QuerySpecV, ErrV>> {
    match raw {
        None => Some(Ok(empty_query())),
        Some(r) => if trim(r).len() == 0 {
            Some(Ok(empty_query()))
        } else if query_pairs_spec(t, reg, form_pairs(r)) == Err::<QuerySpecV, ErrV>(agg_stuck()) {
            None
        } else {
            Some(query_pairs_spec(t, reg, form_pairs(r)))
        },
    }
}

/// Parses a GET query string into a request, checking every name it uses against
/// table `t`.  No query string (or a blank one) asks for nothing in particular.
/// `None` stands for the input on which reading reaches an aggregate item that
/// cannot be split (its last `)` comes before its first `(`) before any answer.
pub fn spec_from_query(t: &Table, reg: &Registry, raw: Option<&str>) -> (r: Option<Result<QuerySpec, ApiError>>)
    ensures
        match r {
            None => query_text_spec(*t, *reg, match raw { Some(x) => Some(x@), None => None }) is None,
            Some(Ok(s)) => query_text_spec(*t, *reg, match raw { Some(x) => Some(x@), None => None }) == Some(Ok::<QuerySpecV, ErrV>(s@)),
            Some(Err(e)) => query_text_spec(*t, *reg, match raw { Some(x) => Some(x@), None => None }) == Some(Err::<QuerySpecV, ErrV>(e@)),
        },
{
    let r = match raw {
        None => return Some(Ok(QuerySpec::default())),
        Some(r) => r,
    };
    let tr = trim_str(r);
    if tr.as_str().is_empty() {
        return Some(Ok(QuerySpec::default()));
    }
    let pairs = urlencoded_pairs(r);
    match pairs_request(t, reg, &pairs) {
        Ok(s) => Some(Ok(s)),
        Err(e) => if is_stuck(&e) {
            None
        } else {
            Some(Err(e))
        },
    }
}

// ---------------------------------------------------------------------------
// POST /{table}/query: the JSON condition tree
// ---------------------------------------------------------------------------

pub open spec fn all_strings(a: Seq<JsonV>) -> bool {
    forall|i: int| 0 <= i < a.len() ==> #[trigger] a[i] is Str
}

/// A list of names given as an array of strings or as one comma-separated string.
pub open spec fn str_list_spec(v: JsonV, field: Seq<char>) -> Result<Seq<Seq<char>>, ErrV> {
    match v {
        JsonV::Array(a) => if all_strings(a) {
            Ok(a.map_values(|x: JsonV| x->Str_0))
        } else {
            Err(e_param(field + " 必须是字符串数组"@))
        },
        JsonV::Str(s) => Ok(csv_items(s)),
        _ => Err(e_param(field + " 必须是字符串数组"@)),
    }
}

pub fn str_list(v: &Json, field: &str) -> (r: Result<Vec<String>, ApiError>)
    ensures
        match r {
            Ok(l) => str_list_spec(v@, field@) == Ok::<Seq<Seq<char>>, ErrV>(l.deep_view()),
            Err(e) => str_list_spec(v@, field@) == Err::<Seq<Seq<char>>, ErrV>(e@),
        },
{
    match v {
        Json::Array(a) => {
            proof {
                lemma_jv_seq(a@);
            }
            let mut out: Vec<String> = Vec::new();
            let mut i: usize = 0;
            while i < a.len()
                invariant
                    i <= a.len(),
                    jv_seq(a@).len() == a.len(),
                    forall|q: int| 0 <= q < a.len() ==> #[trigger] jv_seq(a@)[q] == jv(a@[q]),
                    out.len() == i,
                    v@ == JsonV::Array(jv_seq(a@)),
                    forall|q: int| 0 <= q < i ==> #[trigger] jv_seq(a@)[q] == JsonV::Str(out@[q]@),
                decreases a.len() - i,
            {
                match &a[i] {
                    Json::Str(x) => {
                        let ghost before = out@;
                        out.push(copy_string(x));
                        assert(jv_seq(a@)[i as int] == JsonV::Str(x@));
                        assert(forall|q: int| 0 <= q < i ==> out@[q] == before[q]);
                    },
                    _ => {
                        assert(!(jv_seq(a@)[i as int] is Str));
                        assert(!all_strings(jv_seq(a@)));
                        let m = cat(field, " 必须是字符串数组");
                        return Err(ApiError::param(m.as_str()));
                    },
                }
                i += 1;
            }
            assert(out.deep_view() =~= jv_seq(a@).map_values(|x: JsonV| x->Str_0));
            assert(all_strings(jv_seq(a@)));
            Ok(out)
        },
        Json::Str(x) => Ok(split_csv(x.as_str())),
        _ => {
            let m = cat(field, " 必须是字符串数组");
            Err(ApiError::param(m.as_str()))
        },
    }
}

/// The aggregate text an entry of `aggregates` stands for: a string, or
/// `{func, column, alias}` written as `func(column):alias`.
pub open spec fn agg_entry_text(item: JsonV) -> Option<Seq<char>> {
    match item {
        JsonV::Str(s) => Some(s),
        JsonV::Object(_) => match as_str(get(item, "func"@)) {
            Some(f) => Some(
                f + "("@ + (match as_str(get(item, "column"@)) {
                    Some(c) => c,
                    None => "*"@,
                }) + "):"@ + (match as_str(get(item, "alias"@)) {
                    Some(a) => a,
                    None => Seq::empty(),
                }),
            ),
            None => None,
        },
        _ => None,
    }
}

/// One entry of `order_by` in a body.
pub open spec fn order_entry(t: Table, reg: Registry, item: JsonV) -> Result<Seq<OrderByV>, ErrV> {
    match item {
        JsonV::Str(s) => order_spec(t, reg, seq![s]),
        JsonV::Object(_) => match as_str(get(item, "column"@)) {
            None => Err(e_param("order_by 项缺少 column"@)),
            Some(col) => order_spec(
                t,
                reg,
                seq![col + ":"@ + (match as_str(get(item, "direction"@)) {
                    Some(d) => d,
                    None => "asc"@,
                })],
            ),
        },
        _ => Err(e_param("order_by 项格式非法"@)),
    }
}

/// The `order_by` of a body: an array of entries or one string.
pub open spec fn order_field(t: Table, reg: Registry, ob: Option<JsonV>) -> Result<Seq<OrderByV>, ErrV> {
    match ob {
        None => Ok(Seq::empty()),
        Some(JsonV::Array(arr)) => match collect(arr.map_values(|it: JsonV| order_entry(t, reg, it))) {
            Err(e) => Err(e),
            Ok(ls) => Ok(concat_all(ls)),
        },
        Some(JsonV::Str(s)) => order_spec(t, reg, seq![s]),
        Some(_) => Err(e_param("order_by 必须是数组或字符串"@)),
    }
}

/// One entry of `aggregates` in a body.
pub open spec fn agg_entry(t: Table, reg: Registry, item: JsonV) -> Result<Seq<AggV>, ErrV> {
    match item {
        JsonV::Str(s) => agg_spec(t, reg, s),
        JsonV::Object(_) => match agg_entry_text(item) {
            None => Err(e_param("aggregates 项缺少 func"@)),
            Some(x) => agg_spec(t, reg, x),
        },
        _ => Err(e_param("aggregates 项格式非法"@)),
    }
}

/// The `aggregates` of a body (anything but an array holds none).
pub open spec fn aggs_field(t: Table, reg: Registry, ag: Option<JsonV>) -> Result<Seq<AggV>, ErrV> {
    match ag {
        Some(JsonV::Array(items)) => match collect(items.map_values(|it: JsonV| agg_entry(t, reg, it))) {
            Err(e) => Err(e),
            Ok(ls) => Ok(concat_all(ls)),
        },
        _ => Ok(Seq::empty()),
    }
}

/// An optional integer member.
pub open spec fn int_field(v: Option<JsonV>, msg: Seq<char>) -> Result<Option<i64>, ErrV> {
    match v {
        None => Ok(None),
        Some(x) => match as_i64(x) {
            Some(i) => Ok(Some(i)),
            None => Err(e_param(msg)),
        },
    }
}

/// An optional list member.
pub open spec fn list_field(v: Option<JsonV>, field: Seq<char>) -> Result<Seq<Seq<char>>, ErrV> {
    match v {
        None => Ok(Seq::empty()),
        Some(x) => str_list_spec(x, field),
    }
}

/// An optional flag member (anything but `true`/`false` counts as false).
pub open spec fn flag_field(v: Option<JsonV>) -> bool {
    match v {
        Some(JsonV::Bool(b)) => b,
        _ => false,
    }
}

/// The values a leaf node gives its operator.
pub open spec fn node_values(op: Op, value: Option<JsonV>) -> Seq<JsonV> {
    match op {
        Op::IsNull | Op::IsNotNull => Seq::empty(),
        Op::In | Op::Nin | Op::JsonHasAll | Op::Between => match value {
            Some(JsonV::Array(a)) => a,
            Some(v) => seq![v],
            None => Seq::empty(),
        },
        _ => match value {
            Some(v) => seq![v],
            None => Seq::empty(),
        },
    }
}

/// The column expression of a leaf node: `column`, or `column.path` for a JSON path.
pub open spec fn node_expr(column: Seq<char>, path: Option<Seq<char>>) -> Seq<char> {
    match path {
        Some(p0) => {
            let p = trim(p0);
            if p.len() > 0 && p != "$"@ {
                column + "."@ + (if p.len() >= 2 && p.subrange(0, 2) == "$."@ {
                    p.subrange(2, p.len() as int)
                } else {
                    p
                })
            } else {
                column
            }
        },
        None => column,
    }
}

/// A leaf node `{column, op, value, path}`.
pub open spec fn leaf_node(t: Table, reg: Registry, m: Seq<(Seq<char>, JsonV)>) -> Result<CondV, ErrV> {
    match as_str(obj_get(m, "column"@)) {
        None => Err(e_param("叶子条件缺少 column"@)),
        Some(column) => {
            let opname = lower(
                match as_str(obj_get(m, "op"@)) {
                    Some(o) => o,
                    None => "eq"@,
                },
            );
            match op_of_lower(opname) {
                None => Err(e_unknown_operator(opname)),
                Some(op) => {
                    let expr = node_expr(column, as_str(obj_get(m, "path"@)));
                    match resolve_spec(t, reg, expr, op) {
                        Err(e) => Err(e),
                        Ok(_) => Ok(CondV::Leaf(LeafV { column: expr, op, values: node_values(op, obj_get(m, "value"@)) })),
                    }
                },
            }
        },
    }
}

pub open spec fn logic_name(op: Option<Seq<char>>) -> bool {
    match op {
        Some(o) => lower(o) == "and"@ || lower(o) == "or"@ || lower(o) == "not"@,
        None => false,
    }
}


/// What `obj_get` finds is the value of one of the members.
pub proof fn lemma_obj_get_member(m: Seq<(Seq<char>, JsonV)>, k: Seq<char>)
    ensures
        obj_get(m, k) matches Some(v) ==> exists|i: int| 0 <= i < m.len() && m[i].1 == v,
    decreases m.len(),
{
    if m.len() > 0 && m[0].0 != k {
        lemma_obj_get_member(m.drop_first(), k);
        if obj_get(m, k) is Some {
            let v = obj_get(m, k)->Some_0;
            let i = choose|i: int| 0 <= i < m.drop_first().len() && m.drop_first()[i].1 == v;
            assert(m[i + 1].1 == v);
        }
    } else if m.len() > 0 {
        assert(m[0].1 == obj_get(m, k)->Some_0);
    }
}

/// The `conditions` array of an object node is smaller than the node.
pub proof fn lemma_conditions_smaller(node: JsonV)
    requires
        node is Object,
    ensures
        obj_get(node->Object_0, "conditions"@) matches Some(JsonV::Array(c)) ==> decreases_to!(node => c),
{
    let m = node->Object_0;
    lemma_obj_get_member(m, "conditions"@);
    match obj_get(m, "conditions"@) {
        Some(JsonV::Array(c)) => {
            let i = choose|i: int| 0 <= i < m.len() && m[i].1 == JsonV::Array(c);
            assert(decreases_to!(node => m));
            assert(decreases_to!(m => m[i]));
            assert(decreases_to!(m[i] => m[i].1));
            assert(decreases_to!(m[i].1 => c));
            assert(decreases_to!(node => c));
        },
        _ => {},
    }
}
/// A condition node: an array (AND), a logic node `{op: and|or|not, conditions}` or a leaf.
pub open spec fn node_spec(t: Table, reg: Registry, node: JsonV, depth: nat) -> Result<CondV, ErrV>
    decreases node,
{
    if depth > MAX_DEPTH {
        Err(e_over_limit("条件嵌套深度上限为 5"@))
    } else {
        match node {
            JsonV::Array(arr) => match nodes_spec(t, reg, arr, depth + 1) {
                Err(e) => Err(e),
                Ok(cs) => Ok(CondV::And(cs)),
            },
            JsonV::Object(m) => {
                proof {
                    lemma_conditions_smaller(node);
                }
                if logic_name(as_str(obj_get(m, "op"@))) {
                let lw = lower(as_str(obj_get(m, "op"@))->Some_0);
                match obj_get(m, "conditions"@) {
                    Some(JsonV::Array(conds)) => match nodes_spec(t, reg, conds, depth + 1) {
                        Err(e) => Err(e),
                        Ok(cs) => Ok(
                            if lw == "and"@ {
                                CondV::And(cs)
                            } else if lw == "or"@ {
                                CondV::Or(cs)
                            } else {
                                CondV::Not(Box::new(CondV::And(cs)))
                            },
                        ),
                    },
                    _ => Err(e_param("逻辑节点 "@ + lw + " 缺少 conditions 数组"@)),
                }
            } else {
                leaf_node(t, reg, m)
            }
            },
            _ => Err(e_param("条件节点必须是对象或数组"@)),
        }
    }
}

/// The conditions of several nodes, in order; the first refusal wins.
pub open spec fn nodes_spec(t: Table, reg: Registry, arr: Seq<JsonV>, depth: nat) -> Result<Seq<CondV>, ErrV>
    decreases arr,
{
    if arr.len() == 0 {
        Ok(Seq::empty())
    } else {
        match nodes_spec(t, reg, arr.drop_last(), depth) {
            Err(e) => Err(e),
            Ok(cs) => match node_spec(t, reg, arr.last(), depth) {
                Err(e) => Err(e),
                Ok(c) => Ok(cs.push(c)),
            },
        }
    }
}

/// The request a POST /query body stands for.
pub open spec fn body_spec(t: Table, reg: Registry, body: JsonV) -> Result<QuerySpecV, ErrV> {
    match as_object(body) {
        None => Err(e_param("请求体必须是 JSON 对象"@)),
        Some(m) => match list_field(obj_get(m, "select"@), "select"@) {
            Err(e) => Err(e),
            Ok(select) => match list_field(obj_get(m, "group_by"@), "group_by"@) {
                Err(e) => Err(e),
                Ok(group_by) => match list_field(obj_get(m, "expand"@), "expand"@) {
                    Err(e) => Err(e),
                    Ok(expand) => match list_field(obj_get(m, "children"@), "children"@) {
                        Err(e) => Err(e),
                        Ok(children) => match int_field(obj_get(m, "page"@), "page 必须是整数"@) {
                            Err(e) => Err(e),
                            Ok(page) => match int_field(obj_get(m, "page_size"@), "page_size 必须是整数"@) {
                                Err(e) => Err(e),
                                Ok(page_size) => if page_size matches Some(n) && n > MAX_PAGE_SIZE {
                                    Err(e_over_limit("page_size 上限为 200"@))
                                } else {
                                    match int_field(obj_get(m, "limit"@), "limit 必须是整数"@) {
                                        Err(e) => Err(e),
                                        Ok(limit) => match int_field(obj_get(m, "offset"@), "offset 必须是整数"@) {
                                            Err(e) => Err(e),
                                            Ok(offset) => match order_field(t, reg, obj_get(m, "order_by"@)) {
                                                Err(e) => Err(e),
                                                Ok(order_by) => match aggs_field(t, reg, obj_get(m, "aggregates"@)) {
                                                    Err(e) => Err(e),
                                                    Ok(aggregates) => match (match obj_get(m, "where"@) {
                                                        Some(w) => match node_spec(t, reg, w, 0) {
                                                            Err(e) => Err(e),
                                                            Ok(c) => Ok(Some(c)),
                                                        },
                                                        None => Ok(None),
                                                    }) {
                                                        Err(e) => Err(e),
                                                        Ok(cond) => match select_check(t, reg, select, group_by) {
                                                            Err(e) => Err(e),
                                                            Ok(_) => Ok(
                                                                QuerySpecV {
                                                                    select,
                                                                    cond,
                                                                    q: as_str(obj_get(m, "q"@)),
                                                                    order_by,
                                                                    page,
                                                                    page_size,
                                                                    limit,
                                                                    offset,
                                                                    distinct: flag_field(obj_get(m, "distinct"@)),
                                                                    group_by,
                                                                    aggregates,
                                                                    expand,
                                                                    children,
                                                                    raw_json: flag_field(obj_get(m, "raw"@)),
                                                                    count_only: flag_field(obj_get(m, "count_only"@)),
                                                                },
                                                            ),
                                                        },
                                                    },
                                                },
                                            },
                                        },
                                    }
                                },
                            },
                        },
                    },
                },
            },
        },
    }
}

fn get_str<'a>(m: &'a Vec<(String, Json)>, k: &str) -> (r: Option<&'a String>)
    ensures
        match r {
            Some(x) => as_str(obj_get(crate::json::jv_obj(m@), k@)) == Some(x@),
            None => as_str(obj_get(crate::json::jv_obj(m@), k@)) is None,
        },
{
    match json_get(m, k) {
        Some(Json::Str(x)) => Some(x),
        _ => None,
    }
}

fn value_str<'a>(j: &'a Json, k: &str) -> (r: Option<&'a String>)
    ensures
        match r {
            Some(x) => as_str(get(j@, k@)) == Some(x@),
            None => as_str(get(j@, k@)) is None,
        },
{
    match value_get(j, k) {
        Some(Json::Str(x)) => Some(x),
        _ => None,
    }
}

/// The values a leaf node gives its operator.
fn leaf_values(op: Op, value: Option<&Json>) -> (r: Vec<Json>)
    ensures
        jv_seq(r@) == node_values(op, match value { Some(v) => Some(v@), None => None }),
{
    match op {
        Op::IsNull | Op::IsNotNull => {
            let r: Vec<Json> = Vec::new();
            assert(jv_seq(r@) =~= Seq::<JsonV>::empty());
            r
        },
        Op::In | Op::Nin | Op::JsonHasAll | Op::Between => match value {
            Some(Json::Array(a)) => clone_json_vec(a),
            Some(v) => {
                let mut r: Vec<Json> = Vec::new();
                let c = clone_json(v);
                r.push(c);
                proof {
                    lemma_jv_seq_push(Seq::empty(), c);
                    assert(Seq::<Json>::empty().push(c) =~= r@);
                }
                assert(jv_seq(r@) =~= seq![v@]);
                r
            },
            None => {
                let r: Vec<Json> = Vec::new();
                assert(jv_seq(r@) =~= Seq::<JsonV>::empty());
                r
            },
        },
        _ => match value {
            Some(v) => {
                let mut r: Vec<Json> = Vec::new();
                let c = clone_json(v);
                r.push(c);
                proof {
                    lemma_jv_seq_push(Seq::empty(), c);
                    assert(Seq::<Json>::empty().push(c) =~= r@);
                }
                assert(jv_seq(r@) =~= seq![v@]);
                r
            },
            None => {
                let r: Vec<Json> = Vec::new();
                assert(jv_seq(r@) =~= Seq::<JsonV>::empty());
                r
            },
        },
    }
}

fn leaf_expr(column: &String, path: Option<&String>) -> (r: String)
    ensures
        r@ == node_expr(column@, match path { Some(p) => Some(p@), None => None }),
{
    match path {
        Some(p0) => {
            let pc = chars_of(p0.as_str());
            let p = trim_chars(&pc);
            let ps = string_of(p.as_slice());
            if p.len() > 0 && !str_eq(ps.as_str(), "$") {
                let rest = if p.len() >= 2 && p[0] == '$' && p[1] == '.' {
                    proof {
                        reveal_strlit("$.");
                        assert(p@.subrange(0, 2) =~= "$."@);
                    }
                    let x = slice_chars(&p, 2, p.len());
                    string_of(x.as_slice())
                } else {
                    proof {
                        reveal_strlit("$.");
                        if p@.len() >= 2 && p@.subrange(0, 2) == "$."@ {
                            assert(p@[0] == p@.subrange(0, 2)[0]);
                            assert(p@[1] == p@.subrange(0, 2)[1]);
                        }
                    }
                    ps
                };
                cat3(column.as_str(), ".", rest.as_str())
            } else {
                copy_string(column)
            }
        },
        None => copy_string(column),
    }
}

fn leaf_node_exec(t: &Table, reg: &Registry, m: &Vec<(String, Json)>) -> (r: Result<Cond, ApiError>)
    ensures
        match r {
            Ok(c) => leaf_node(*t, *reg, crate::json::jv_obj(m@)) == Ok::<CondV, ErrV>(c@),
            Err(e) => leaf_node(*t, *reg, crate::json::jv_obj(m@)) == Err::<CondV, ErrV>(e@),
        },
{
    let column = match get_str(m, "column") {
        Some(c) => c,
        None => return Err(ApiError::param("叶子条件缺少 column")),
    };
    let opname = match get_str(m, "op") {
        Some(o) => to_lower(o.as_str()),
        None => {
            proof {
                reveal_strlit("eq");
                assert(lower("eq"@) =~= "eq"@);
            }
            owned("eq")
        },
    };
    proof {
        lemma_lower_idempotent(opname@);
        match as_str(obj_get(crate::json::jv_obj(m@), "op"@)) {
            Some(o) => lemma_lower_idempotent(o),
            None => {},
        }
    }
    let op = match Op::from_name(opname.as_str()) {
        Some(o) => o,
        None => return Err(ApiError::unknown_operator(opname.as_str())),
    };
    let expr = leaf_expr(column, get_str(m, "path"));
    resolve(t, reg, expr.as_str(), op)?;
    let vals = leaf_values(op, json_get(m, "value"));
    Ok(Cond::Leaf(Leaf::new(expr, op, vals)))
}

/// Parses one condition node (an array is AND; `{op: and|or|not, conditions}`; a leaf).
fn parse_node(t: &Table, reg: &Registry, node: &Json, depth: usize) -> (r: Result<Cond, ApiError>)
    ensures
        match r {
            Ok(c) => node_spec(*t, *reg, node@, depth as nat) == Ok::<CondV, ErrV>(c@),
            Err(e) => node_spec(*t, *reg, node@, depth as nat) == Err::<CondV, ErrV>(e@),
        },
    decreases node,
{
    if depth > MAX_DEPTH {
        return Err(ApiError::over_limit("条件嵌套深度上限为 5"));
    }
    match node {
        Json::Array(arr) => {
            let cs = parse_nodes(t, reg, arr, depth + 1)?;
            Ok(Cond::And(cs))
        },
        Json::Object(m) => {
            let is_logic = match get_str(m, "op") {
                Some(o) => {
                    let l = to_lower(o.as_str());
                    str_eq(l.as_str(), "and") || str_eq(l.as_str(), "or") || str_eq(l.as_str(), "not")
                },
                None => false,
            };
            if is_logic {
                let o = get_str(m, "op").unwrap();
                let lw = to_lower(o.as_str());
                match json_get(m, "conditions") {
                    Some(Json::Array(conds)) => {
                        proof {
                            let i = choose|i: int| 0 <= i < m.len() && m@[i].1 == Json::Array(*conds);
                            assert(decreases_to!(*node => *m));
                            assert(decreases_to!(*m => m@));
                            assert(decreases_to!(m@ => m@[i]));
                            assert(decreases_to!(m@[i] => m@[i].1));
                            assert(decreases_to!(m@[i].1 => *conds));
                        }
                        let cs = parse_nodes(t, reg, conds, depth + 1)?;
                        if str_eq(lw.as_str(), "and") {
                            Ok(Cond::And(cs))
                        } else if str_eq(lw.as_str(), "or") {
                            Ok(Cond::Or(cs))
                        } else {
                            let inner = Cond::And(cs);
                            assert(cv(inner) == CondV::And(cv_seq(cs@)));
                            Ok(Cond::Not(Box::new(inner)))
                        }
                    },
                    _ => {
                        let msg = cat3("逻辑节点 ", lw.as_str(), " 缺少 conditions 数组");
                        Err(ApiError::param(msg.as_str()))
                    },
                }
            } else {
                leaf_node_exec(t, reg, m)
            }
        },
        _ => Err(ApiError::param("条件节点必须是对象或数组")),
    }
}

fn parse_nodes(t: &Table, reg: &Registry, arr: &Vec<Json>, depth: usize) -> (r: Result<Vec<Cond>, ApiError>)
    ensures
        match r {
            Ok(cs) => nodes_spec(*t, *reg, jv_seq(arr@), depth as nat) == Ok::<Seq<CondV>, ErrV>(cv_seq(cs@)),
            Err(e) => nodes_spec(*t, *reg, jv_seq(arr@), depth as nat) == Err::<Seq<CondV>, ErrV>(e@),
        },
    decreases arr,
{
    proof {
        lemma_jv_seq(arr@);
    }
    let mut out: Vec<Cond> = Vec::new();
    let mut i: usize = 0;
    assert(jv_seq(arr@).subrange(0, 0) =~= Seq::<JsonV>::empty());
    assert(cv_seq(out@) =~= Seq::<CondV>::empty());
    while i < arr.len()
        invariant
            i <= arr.len(),
            jv_seq(arr@).len() == arr.len(),
            forall|q: int| 0 <= q < arr.len() ==> #[trigger] jv_seq(arr@)[q] == jv(arr@[q]),
            nodes_spec(*t, *reg, jv_seq(arr@).subrange(0, i as int), depth as nat) == Ok::<Seq<CondV>, ErrV>(cv_seq(out@)),
        decreases arr.len() - i,
    {
        let ghost sub = jv_seq(arr@).subrange(0, i + 1);
        assert(sub.drop_last() =~= jv_seq(arr@).subrange(0, i as int));
        assert(sub.last() == jv(arr@[i as int]));
        match parse_node(t, reg, &arr[i], depth) {
            Ok(c) => {
                proof {
                    lemma_cv_seq_push(out@, c);
                }
                out.push(c);
            },
            Err(e) => {
                proof {
                    lemma_nodes_prefix_err(*t, *reg, jv_seq(arr@), depth as nat, i + 1);
                }
                return Err(e);
            },
        }
        i += 1;
    }
    assert(jv_seq(arr@).subrange(0, arr.len() as int) =~= jv_seq(arr@));
    Ok(out)
}

proof fn lemma_nodes_prefix_err(t: Table, reg: Registry, arr: Seq<JsonV>, depth: nat, k: int)
    requires
        0 <= k <= arr.len(),
        nodes_spec(t, reg, arr.subrange(0, k), depth) is Err,
    ensures
        nodes_spec(t, reg, arr, depth) == nodes_spec(t, reg, arr.subrange(0, k), depth),
    decreases arr.len() - k,
{
    if k < arr.len() {
        assert(arr.subrange(0, k + 1).drop_last() =~= arr.subrange(0, k));
        lemma_nodes_prefix_err(t, reg, arr, depth, k + 1);
    } else {
        assert(arr.subrange(0, k) =~= arr);
    }
}

fn opt_view(v: Option<&Json>) -> (r: Ghost<Option<JsonV>>)
    ensures
        r@ == (match v {
            Some(x) => Some(x@),
            None => None,
        }),
{
    Ghost(
        match v {
            Some(x) => Some(x@),
            None => None,
        },
    )
}

fn list_member(m: &Vec<(String, Json)>, key: &str, field: &str) -> (r: Result<Vec<String>, ApiError>)
    ensures
        match r {
            Ok(l) => list_field(obj_get(crate::json::jv_obj(m@), key@), field@) == Ok::<Seq<Seq<char>>, ErrV>(l.deep_view()),
            Err(e) => list_field(obj_get(crate::json::jv_obj(m@), key@), field@) == Err::<Seq<Seq<char>>, ErrV>(e@),
        },
{
    match json_get(m, key) {
        None => {
            let l: Vec<String> = Vec::new();
            assert(l.deep_view() =~= Seq::<Seq<char>>::empty());
            Ok(l)
        },
        Some(v) => str_list(v, field),
    }
}

fn int_member(m: &Vec<(String, Json)>, key: &str, msg: &str) -> (r: Result<Option<i64>, ApiError>)
    ensures
        match r {
            Ok(x) => int_field(obj_get(crate::json::jv_obj(m@), key@), msg@) == Ok::<Option<i64>, ErrV>(x),
            Err(e) => int_field(obj_get(crate::json::jv_obj(m@), key@), msg@) == Err::<Option<i64>, ErrV>(e@),
        },
{
    match json_get(m, key) {
        None => Ok(None),
        Some(Json::Int(i)) => Ok(Some(*i)),
        Some(_) => Err(ApiError::param(msg)),
    }
}

fn flag_member(m: &Vec<(String, Json)>, key: &str) -> (r: bool)
    ensures
        r == flag_field(obj_get(crate::json::jv_obj(m@), key@)),
{
    match json_get(m, key) {
        Some(Json::Bool(b)) => *b,
        _ => false,
    }
}

fn one_text(s: String) -> (r: Vec<String>)
    ensures
        r.deep_view() == seq![s@],
{
    let mut v: Vec<String> = Vec::new();
    v.push(s);
    assert(v.deep_view() =~= seq![v@[0]@]);
    v
}

fn order_entry_exec(t: &Table, reg: &Registry, item: &Json) -> (r: Result<Vec<OrderBy>, ApiError>)
    ensures
        match r {
            Ok(v) => order_entry(*t, *reg, item@) == Ok::<Seq<OrderByV>, ErrV>(orders_view(v@)),
            Err(e) => order_entry(*t, *reg, item@) == Err::<Seq<OrderByV>, ErrV>(e@),
        },
{
    match item {
        Json::Str(s) => parse_order_by(t, reg, &one_text(copy_string(s))),
        Json::Object(_) => {
            let col = match value_str(item, "column") {
                Some(c) => c,
                None => return Err(ApiError::param("order_by 项缺少 column")),
            };
            let dir = match value_str(item, "direction") {
                Some(d) => copy_string(d),
                None => owned("asc"),
            };
            let text = cat3(col.as_str(), ":", dir.as_str());
            parse_order_by(t, reg, &one_text(text))
        },
        _ => Err(ApiError::param("order_by 项格式非法")),
    }
}

fn append_orders(dst: &mut Vec<OrderBy>, src: Vec<OrderBy>)
    ensures
        orders_view(final(dst)@) == orders_view(old(dst)@) + orders_view(src@),
{
    let ghost start = orders_view(dst@);
    let mut src = src;
    let ghost all = orders_view(src@);
    let mut i: usize = 0;
    let n = src.len();
    assert(start + all.subrange(0, 0) =~= start);
    while i < n
        invariant
            i <= n,
            n == src.len(),
            orders_view(src@) == all,
            orders_view(dst@) == start + all.subrange(0, i as int),
        decreases n - i,
    {
        let o = &src[i];
        let ghost before = orders_view(dst@);
        dst.push(OrderBy { column: copy_string(&o.column), direction: copy_string(&o.direction), nulls_last: o.nulls_last });
        assert(orders_view(dst@) =~= before.push(all[i as int]));
        assert(start + all.subrange(0, i + 1) =~= (start + all.subrange(0, i as int)).push(all[i as int]));
        i += 1;
    }
    assert(all.subrange(0, n as int) =~= all);
}

fn append_aggs(dst: &mut Vec<Agg>, src: Vec<Agg>)
    ensures
        aggs_view(final(dst)@) == aggs_view(old(dst)@) + aggs_view(src@),
{
    let ghost start = aggs_view(dst@);
    let ghost all = aggs_view(src@);
    let mut i: usize = 0;
    let n = src.len();
    assert(start + all.subrange(0, 0) =~= start);
    while i < n
        invariant
            i <= n,
            n == src.len(),
            aggs_view(src@) == all,
            aggs_view(dst@) == start + all.subrange(0, i as int),
        decreases n - i,
    {
        let a = &src[i];
        let column = match &a.column {
            Some(c) => Some(copy_string(c)),
            None => None,
        };
        let ghost before = aggs_view(dst@);
        dst.push(Agg { func: copy_string(&a.func), column, alias: copy_string(&a.alias) });
        assert(aggs_view(dst@) =~= before.push(all[i as int]));
        assert(start + all.subrange(0, i + 1) =~= (start + all.subrange(0, i as int)).push(all[i as int]));
        i += 1;
    }
    assert(all.subrange(0, n as int) =~= all);
}

fn order_member(t: &Table, reg: &Registry, ob: Option<&Json>) -> (r: Result<Vec<OrderBy>, ApiError>)
    ensures
        match r {
            Ok(v) => order_field(*t, *reg, match ob { Some(x) => Some(x@), None => None }) == Ok::<Seq<OrderByV>, ErrV>(orders_view(v@)),
            Err(e) => order_field(*t, *reg, match ob { Some(x) => Some(x@), None => None }) == Err::<Seq<OrderByV>, ErrV>(e@),
        },
{
    match ob {
        None => {
            let v: Vec<OrderBy> = Vec::new();
            assert(orders_view(v@) =~= Seq::<OrderByV>::empty());
            Ok(v)
        },
        Some(Json::Array(arr)) => {
            proof {
                lemma_jv_seq(arr@);
            }
            let ghost rs = jv_seq(arr@).map_values(|it: JsonV| order_entry(*t, *reg, it));
            let mut out: Vec<OrderBy> = Vec::new();
            let mut i: usize = 0;
            assert(rs.subrange(0, 0) =~= Seq::<Result<Seq<OrderByV>, ErrV>>::empty());
            assert(orders_view(out@) =~= concat_all(Seq::<Seq<OrderByV>>::empty()));
            while i < arr.len()
                invariant
                    i <= arr.len(),
                    jv_seq(arr@).len() == arr.len(),
                    forall|q: int| 0 <= q < arr.len() ==> #[trigger] jv_seq(arr@)[q] == jv(arr@[q]),
                    rs == jv_seq(arr@).map_values(|it: JsonV| order_entry(*t, *reg, it)),
                    (match ob { Some(x) => Some(x@), None => None }) == Some(JsonV::Array(jv_seq(arr@))),
                    collect(rs.subrange(0, i as int)) matches Ok(ls) && orders_view(out@) == concat_all(ls),
                decreases arr.len() - i,
            {
                proof {
                    lemma_collect_step(rs, i as int);
                }
                let ghost ls = collect(rs.subrange(0, i as int))->Ok_0;
                match order_entry_exec(t, reg, &arr[i]) {
                    Ok(one) => {
                        let ghost ov = orders_view(one@);
                        append_orders(&mut out, one);
                        assert(ls.push(ov).drop_last() =~= ls);
                    },
                    Err(e) => {
                        proof {
                            lemma_collect_prefix_err(rs, i + 1);
                        }
                        return Err(e);
                    },
                }
                i += 1;
            }
            proof {
                lemma_collect_all(rs);
            }
            Ok(out)
        },
        Some(Json::Str(s)) => parse_order_by(t, reg, &one_text(copy_string(s))),
        Some(_) => Err(ApiError::param("order_by 必须是数组或字符串")),
    }
}

fn agg_entry_exec(t: &Table, reg: &Registry, item: &Json) -> (r: Result<Vec<Agg>, ApiError>)
    ensures
        match r {
            Ok(v) => agg_entry(*t, *reg, item@) == Ok::<Seq<AggV>, ErrV>(aggs_view(v@)),
            Err(e) => agg_entry(*t, *reg, item@) == Err::<Seq<AggV>, ErrV>(e@),
        },
{
    match item {
        Json::Str(s) => agg_list(t, reg, s.as_str()),
        Json::Object(_) => {
            let func = match value_str(item, "func") {
                Some(f) => f,
                None => return Err(ApiError::param("aggregates 项缺少 func")),
            };
            let column = match value_str(item, "column") {
                Some(c) => copy_string(c),
                None => owned("*"),
            };
            let alias = match value_str(item, "alias") {
                Some(a) => copy_string(a),
                None => String::new(),
            };
            let a = cat3(func.as_str(), "(", column.as_str());
            let b = cat3(a.as_str(), "):", alias.as_str());
            assert(agg_entry_text(item@) == Some(b@));
            agg_list(t, reg, b.as_str())
        },
        _ => Err(ApiError::param("aggregates 项格式非法")),
    }
}

fn aggs_member(t: &Table, reg: &Registry, ag: Option<&Json>) -> (r: Result<Vec<Agg>, ApiError>)
    ensures
        match r {
            Ok(v) => aggs_field(*t, *reg, match ag { Some(x) => Some(x@), None => None }) == Ok::<Seq<AggV>, ErrV>(aggs_view(v@)),
            Err(e) => aggs_field(*t, *reg, match ag { Some(x) => Some(x@), None => None }) == Err::<Seq<AggV>, ErrV>(e@),
        },
{
    match ag {
        Some(Json::Array(items)) => {
            proof {
                lemma_jv_seq(items@);
            }
            let ghost rs = jv_seq(items@).map_values(|it: JsonV| agg_entry(*t, *reg, it));
            let mut out: Vec<Agg> = Vec::new();
            let mut i: usize = 0;
            assert(rs.subrange(0, 0) =~= Seq::<Result<Seq<AggV>, ErrV>>::empty());
            assert(aggs_view(out@) =~= concat_all(Seq::<Seq<AggV>>::empty()));
            while i < items.len()
                invariant
                    i <= items.len(),
                    jv_seq(items@).len() == items.len(),
                    forall|q: int| 0 <= q < items.len() ==> #[trigger] jv_seq(items@)[q] == jv(items@[q]),
                    rs == jv_seq(items@).map_values(|it: JsonV| agg_entry(*t, *reg, it)),
                    (match ag { Some(x) => Some(x@), None => None }) == Some(JsonV::Array(jv_seq(items@))),
                    collect(rs.subrange(0, i as int)) matches Ok(ls) && aggs_view(out@) == concat_all(ls),
                decreases items.len() - i,
            {
                proof {
                    lemma_collect_step(rs, i as int);
                }
                let ghost ls = collect(rs.subrange(0, i as int))->Ok_0;
                match agg_entry_exec(t, reg, &items[i]) {
                    Ok(one) => {
                        let ghost av = aggs_view(one@);
                        append_aggs(&mut out, one);
                        assert(ls.push(av).drop_last() =~= ls);
                    },
                    Err(e) => {
                        proof {
                            lemma_collect_prefix_err(rs, i + 1);
                        }
                        return Err(e);
                    },
                }
                i += 1;
            }
            proof {
                lemma_collect_all(rs);
            }
            Ok(out)
        },
        _ => {
            let v: Vec<Agg> = Vec::new();
            assert(aggs_view(v@) =~= Seq::<AggV>::empty());
            Ok(v)
        },
    }
}

/// The request that a POST /query body stands for, on a body whose reading does
/// not run into an aggregate item that cannot be cut.
pub fn spec_from_body(t: &Table, reg: &Registry, body: &Json) -> (r: Result<QuerySpec, ApiError>)
    requires
        body_spec(*t, *reg, body@) != Err::<QuerySpecV, ErrV>(agg_stuck()),
    ensures
        match r {
            Ok(s) => body_spec(*t, *reg, body@) == Ok::<QuerySpecV, ErrV>(s@),
            Err(e) => body_spec(*t, *reg, body@) == Err::<QuerySpecV, ErrV>(e@),
        },
{
    body_request_of(t, reg, body)
}

/// What `body_request` gives: no answer where reading the body runs into an
/// aggregate item that cannot be cut, else the request or its refusal.
pub open spec fn body_text_spec(t: Table, reg: Registry, body: JsonV) -> Option<Result<QuerySpecV, ErrV>> {
    if body_spec(t, reg, body) == Err::<QuerySpecV, ErrV>(agg_stuck()) {
        None
    } else {
        Some(body_spec(t, reg, body))
    }
}

/// Reads a POST /query body; `None` where reading reaches an aggregate item
/// whose last `)` comes before its first `(` before any answer.
pub fn body_request(t: &Table, reg: &Registry, body: &Json) -> (r: Option<Result<QuerySpec, ApiError>>)
    ensures
        match r {
            None => body_text_spec(*t, *reg, body@) is None,
            Some(Ok(s)) => body_text_spec(*t, *reg, body@) == Some(Ok::<QuerySpecV, ErrV>(s@)),
            Some(Err(e)) => body_text_spec(*t, *reg, body@) == Some(Err::<QuerySpecV, ErrV>(e@)),
        },
{
    match body_request_of(t, reg, body) {
        Ok(s) => Some(Ok(s)),
        Err(e) => if is_stuck(&e) {
            None
        } else {
            Some(Err(e))
        },
    }
}

/// The request of a body, or `agg_stuck` where reading it runs into an
/// aggregate item that cannot be cut.
fn body_request_of(t: &Table, reg: &Registry, body: &Json) -> (r: Result<QuerySpec, ApiError>)
    ensures
        match r {
            Ok(s) => body_spec(*t, *reg, body@) == Ok::<QuerySpecV, ErrV>(s@),
            Err(e) => body_spec(*t, *reg, body@) == Err::<QuerySpecV, ErrV>(e@),
        },
{
    let m = match body {
        Json::Object(m) => m,
        _ => return Err(ApiError::param("请求体必须是 JSON 对象")),
    };
    let select = list_member(m, "select", "select")?;
    let group_by = list_member(m, "group_by", "group_by")?;
    let expand = list_member(m, "expand", "expand")?;
    let children = list_member(m, "children", "children")?;
    let distinct = flag_member(m, "distinct");
    let raw_json = flag_member(m, "raw");
    let count_only = flag_member(m, "count_only");
    let q = match get_str(m, "q") {
        Some(x) => Some(copy_string(x)),
        None => None,
    };
    let page = int_member(m, "page", "page 必须是整数")?;
    let page_size = int_member(m, "page_size", "page_size 必须是整数")?;
    if let Some(n) = page_size {
        if n > MAX_PAGE_SIZE {
            return Err(ApiError::over_limit("page_size 上限为 200"));
        }
    }
    let limit = int_member(m, "limit", "limit 必须是整数")?;
    let offset = int_member(m, "offset", "offset 必须是整数")?;
    let order_by = order_member(t, reg, json_get(m, "order_by"))?;
    let aggregates = aggs_member(t, reg, json_get(m, "aggregates"))?;
    let cond = match json_get(m, "where") {
        Some(w) => Some(parse_node(t, reg, w, 0)?),
        None => None,
    };
    let spec = QuerySpec {
        select,
        cond,
        q,
        order_by,
        page,
        page_size,
        limit,
        offset,
        distinct,
        group_by,
        aggregates,
        expand,
        children,
        raw_json,
        count_only,
    };
    validate_select(t, reg, &spec)?;
    Ok(spec)
}
/// A query-string key that filters on a column: none of the reserved keys and
/// not of the `filter[..]`, `or[..]` or `and[..]` forms.
pub open spec fn filter_key(k: Seq<char>) -> bool {
    &&& !(k == "page"@ || k == "page_size"@ || k == "limit"@ || k == "offset"@ || k == "order_by"@ || k == "select"@ || k == "group_by"@ || k == "agg"@ || k == "aggregates"@ || k == "expand"@ || k == "children"@ || k == "distinct"@ || k == "raw"@ || k == "count_only"@ || k == "q"@ || k == "logic"@ || k == "where"@ || k == "format"@ || k == "filename"@ || k == "_t"@ || k == "ts"@)
    &&& bracket_spec(k, "filter"@) is None
    &&& bracket_spec(k, "or"@) is None
    &&& bracket_spec(k, "and"@) is None
}

/// A column of `t` that a plain key filters by equality on its text: a TEXT
/// column whose name is trimmed and holds no `.`.
pub open spec fn text_filter_column(t: Table, a: Seq<char>) -> bool {
    &&& t.col(a) matches Some(c) && c.ty@ == "TEXT"@
    &&& trim(a) == a
    &&& a.len() > 0
    &&& !a.contains('.')
    &&& filter_key(a)
}

pub open spec fn text_eq(a: Seq<char>, x: Seq<char>) -> CondV {
    CondV::Leaf(LeafV { column: a, op: Op::Eq, values: seq![JsonV::Str(x)] })
}

proof fn lemma_text_leaf(t: Table, reg: Registry, a: Seq<char>, x: Seq<char>)
    requires
        text_filter_column(t, a),
    ensures
        leaf_key_spec(t, reg, a, seq![x]) == Ok::<CondV, ErrV>(text_eq(a, x)),
{
    reveal(leaf_key_spec);
    reveal(conv_spec);
    reveal_strlit("TEXT");
    reveal_strlit("INTEGER");
    reveal_strlit("BOOLEAN");
    reveal_strlit("REAL");
    assert(first_index(a, '.') is None);
    assert(coldef_of(t, reg, a, Op::Eq) == t.col(a));
    let c = t.col(a)->0;
    assert(c.ty@ != "INTEGER"@ && c.ty@ != "BOOLEAN"@ && c.ty@ != "REAL"@) by {
        assert("TEXT"@[0] != "INTEGER"@[0]);
        assert("TEXT"@[0] != "BOOLEAN"@[0]);
        assert("TEXT"@[0] != "REAL"@[0]);
    }
}

/// `logic=or` sets the OR flag and nothing else.
proof fn lemma_logic_or_step(t: Table, reg: Registry, st: QueryStateV)
    ensures
        query_step(t, reg, st, "logic"@, seq!["or"@]) == Ok::<QueryStateV, ErrV>(QueryStateV { logic_or: true, ..st }),
{
    reveal_strlit("page");
    reveal_strlit("page_size");
    reveal_strlit("limit");
    reveal_strlit("offset");
    reveal_strlit("order_by");
    reveal_strlit("select");
    reveal_strlit("group_by");
    reveal_strlit("agg");
    reveal_strlit("aggregates");
    reveal_strlit("expand");
    reveal_strlit("children");
    reveal_strlit("distinct");
    reveal_strlit("raw");
    reveal_strlit("count_only");
    reveal_strlit("q");
    reveal_strlit("logic");
    reveal_strlit("or");
    reveal(query_step);
    let l = "logic"@;
    // naming the characters of the key lets it be told apart from the others
    let (c0, c1, c2, n) = (l[0], l[1], l[2], l.len());
    assert(trim("or"@) =~= "or"@);
    crate::query::ast::lemma_lower_name("or"@);
}

/// How the pairs of two filters, and of the same with `logic=or`, are read
/// key by key.
proof fn lemma_two_filters_fold(t: Table, reg: Registry, a: Seq<char>, b: Seq<char>, x: Seq<char>, y: Seq<char>)
    requires
        a != b,
        text_filter_column(t, a),
        text_filter_column(t, b),
    ensures
        query_fold(t, reg, group_pairs(seq![(a, x), (b, y)])) == Ok::<QueryStateV, ErrV>(
            QueryStateV { flat: seq![(a, seq![x]), (b, seq![y])], ..start_state() },
        ),
        query_fold(t, reg, group_pairs(seq![(a, x), (b, y), ("logic"@, "or"@)])) == Ok::<QueryStateV, ErrV>(
            QueryStateV { flat: seq![(a, seq![x]), (b, seq![y])], logic_or: true, ..start_state() },
        ),
{
    reveal_strlit("page");
    reveal_strlit("page_size");
    reveal_strlit("limit");
    reveal_strlit("offset");
    reveal_strlit("order_by");
    reveal_strlit("select");
    reveal_strlit("group_by");
    reveal_strlit("agg");
    reveal_strlit("aggregates");
    reveal_strlit("expand");
    reveal_strlit("children");
    reveal_strlit("distinct");
    reveal_strlit("raw");
    reveal_strlit("count_only");
    reveal_strlit("q");
    reveal_strlit("logic");
    reveal_strlit("where");
    reveal_strlit("format");
    reveal_strlit("filename");
    reveal_strlit("_t");
    reveal_strlit("ts");
    reveal_strlit("or");
    reveal(query_step);
    let p1 = seq![(a, x), (b, y)];
    let p2 = seq![(a, x), (b, y), ("logic"@, "or"@)];
    assert(p1.drop_last() =~= seq![(a, x)]);
    assert(seq![(a, x)].drop_last() =~= Seq::<(Seq<char>, Seq<char>)>::empty());
    assert(p2.drop_last() =~= p1);
    let g0 = seq![(a, seq![x])];
    assert(group_pairs(Seq::<(Seq<char>, Seq<char>)>::empty()) =~= Seq::<(Seq<char>, Seq<Seq<char>>)>::empty());
    assert(key_slot(Seq::<(Seq<char>, Seq<Seq<char>>)>::empty(), a, 0) is None);
    assert(Seq::<(Seq<char>, Seq<Seq<char>>)>::empty().push((a, seq![x])) =~= g0);
    assert(group_pairs(seq![(a, x)]) =~= g0);
    assert(key_slot(g0, b, 1) is None);
    assert(key_slot(g0, b, 0) is None);
    let g1 = seq![(a, seq![x]), (b, seq![y])];
    assert(group_pairs(p1) =~= g1);
    assert(key_slot(g1, "logic"@, 2) is None);
    assert(key_slot(g1, "logic"@, 1) is None);
    assert(key_slot(g1, "logic"@, 0) is None);
    let g2 = seq![(a, seq![x]), (b, seq![y]), ("logic"@, seq!["or"@])];
    assert(group_pairs(p2) =~= g2);
    assert(g1.drop_last() =~= g0);
    assert(g0.drop_last() =~= Seq::<(Seq<char>, Seq<Seq<char>>)>::empty());
    assert(g2.drop_last() =~= g1);
    let st1 = QueryStateV { flat: seq![(a, seq![x])], ..start_state() };
    assert(start_state().flat.push((a, seq![x])) =~= st1.flat);
    assert(query_fold(t, reg, g0.drop_last()) == Ok::<QueryStateV, ErrV>(start_state()));
    assert(query_step(t, reg, start_state(), a, seq![x]) == Ok::<QueryStateV, ErrV>(st1));
    assert(query_fold(t, reg, g0) == Ok::<QueryStateV, ErrV>(st1));
    let st2 = QueryStateV { flat: seq![(a, seq![x]), (b, seq![y])], ..start_state() };
    assert(st1.flat.push((b, seq![y])) =~= st2.flat);
    assert(query_fold(t, reg, g1) == Ok::<QueryStateV, ErrV>(st2));
    assert(trim("or"@) =~= "or"@);
    crate::query::ast::lemma_lower_name("or"@);
    assert(g2.last().1[0] == "or"@);
    lemma_logic_or_step(t, reg, st2);
    assert(query_fold(t, reg, g2) == Ok::<QueryStateV, ErrV>(QueryStateV { logic_or: true, ..st2 }));
}

/// `logic=or` joins the plain filters by OR instead of AND: two filters on
/// distinct TEXT columns read as the conjunction of their equalities, and with
/// `logic=or` added as their disjunction; nothing else of the request is set.
pub proof fn law_logic_or_joins_filters(t: Table, reg: Registry, a: Seq<char>, b: Seq<char>, x: Seq<char>, y: Seq<char>)
    requires
        a != b,
        text_filter_column(t, a),
        text_filter_column(t, b),
    ensures
        query_pairs_spec(t, reg, seq![(a, x), (b, y)]) == Ok::<QuerySpecV, ErrV>(
            QuerySpecV { cond: Some(CondV::And(seq![text_eq(a, x), text_eq(b, y)])), ..empty_query() },
        ),
        query_pairs_spec(t, reg, seq![(a, x), (b, y), ("logic"@, "or"@)]) == Ok::<QuerySpecV, ErrV>(
            QuerySpecV { cond: Some(CondV::Or(seq![text_eq(a, x), text_eq(b, y)])), ..empty_query() },
        ),
{
    lemma_two_filters_fold(t, reg, a, b, x, y);
    lemma_text_leaf(t, reg, a, x);
    lemma_text_leaf(t, reg, b, y);
    reveal(query_finish);
    let st2 = QueryStateV { flat: seq![(a, seq![x]), (b, seq![y])], ..start_state() };
    let items = st2.flat;
    let rs = items.map_values(|p: (Seq<char>, Seq<Seq<char>>)| leaf_key_spec(t, reg, p.0, p.1));
    assert(rs =~= seq![Ok::<CondV, ErrV>(text_eq(a, x)), Ok::<CondV, ErrV>(text_eq(b, y))]);
    let ls = seq![text_eq(a, x), text_eq(b, y)];
    assert(rs.drop_last() =~= seq![Ok::<CondV, ErrV>(text_eq(a, x))]);
    assert(rs.drop_last().drop_last() =~= Seq::<Result<CondV, ErrV>>::empty());
    assert(Seq::<CondV>::empty().push(text_eq(a, x)).push(text_eq(b, y)) =~= ls);
    assert(collect(rs.drop_last().drop_last()) == Ok::<Seq<CondV>, ErrV>(Seq::empty()));
    assert(collect(rs.drop_last()) == Ok::<Seq<CondV>, ErrV>(seq![text_eq(a, x)]));
    assert(collect(rs) == Ok::<Seq<CondV>, ErrV>(ls));
    assert(group_leaves(t, reg, items) == Ok::<Seq<CondV>, ErrV>(ls));
    assert(somes(Seq::<Option<CondV>>::empty()) =~= Seq::<CondV>::empty());
    assert(ls + Seq::<CondV>::empty() + Seq::<CondV>::empty() =~= ls);
    assert(opt_seq(Some(CondV::Or(ls))) + Seq::<CondV>::empty() + Seq::<CondV>::empty() =~= seq![CondV::Or(ls)]);
    assert((Seq::<Seq<char>>::empty() + Seq::<Seq<char>>::empty()) =~= Seq::<Seq<char>>::empty());
}

/// `logic=or` on query strings: a query text whose decoded pairs are two
/// filters on distinct TEXT columns gives, through `spec_from_query`, the
/// conjunction of their equalities; one that decodes to the same two filters
/// and `logic=or` gives their disjunction.
pub proof fn law_logic_or_query_text(
    t: Table,
    reg: Registry,
    r1: Seq<char>,
    r2: Seq<char>,
    a: Seq<char>,
    b: Seq<char>,
    x: Seq<char>,
    y: Seq<char>,
)
    requires
        a != b,
        text_filter_column(t, a),
        text_filter_column(t, b),
        trim(r1).len() > 0,
        trim(r2).len() > 0,
        form_pairs(r1) == seq![(a, x), (b, y)],
        form_pairs(r2) == seq![(a, x), (b, y), ("logic"@, "or"@)],
    ensures
        query_text_spec(t, reg, Some(r1)) == Some(Ok::<QuerySpecV, ErrV>(
            QuerySpecV { cond: Some(CondV::And(seq![text_eq(a, x), text_eq(b, y)])), ..empty_query() },
        )),
        query_text_spec(t, reg, Some(r2)) == Some(Ok::<QuerySpecV, ErrV>(
            QuerySpecV { cond: Some(CondV::Or(seq![text_eq(a, x), text_eq(b, y)])), ..empty_query() },
        )),
{
    law_logic_or_joins_filters(t, reg, a, b, x, y);
}

} // verus!
