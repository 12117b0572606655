//! Condition trees and their rendering into parameterised SQL.
//!
//! Only whitelisted column and table names are turned into SQL text; every value a
//! user supplies goes into the parameter list behind a `?` placeholder.

use crate::error::{e_param, e_unknown_column, e_unknown_table, e_validation_many, fe, field_errs_view, ApiError, ErrV, FieldError};
use crate::json::{clone_json, clone_json_vec, jv, jv_seq, json_text, lemma_jv_seq, to_json_text, Json, JsonV};
use crate::schema::{col_names, first_belongs, table_names, Column, Registry, Table};
use crate::text::{alphanumeric, cat, cat3, chars_of, copy_string, first_index, find_char, is_alphanumeric, join, join_strings, lower, nat_text, owned, slice_chars, str_eq, string_of, to_lower, trim, trim_chars, usize_text};
use crate::value::{clone_sql, json_scalar_spec, json_scalar_to_sql, json_to_sql, json_to_sql_spec, sql_view, SqlV, SqlVal};
use vstd::prelude::*;

verus! {

#[derive(Debug, PartialEq, Eq, Structural, Clone, Copy)]
pub enum Op {
    Eq,
    Ne,
    Gt,
    Gte,
    Lt,
    Lte,
    Like,
    NLike,
    Prefix,
    Suffix,
    In,
    Nin,
    Between,
    IsNull,
    IsNotNull,
    JsonContains,
    JsonHasAll,
    JsonEq,
    JsonLike,
    JsonLenGte,
}

/// The operator written as `s` (after ASCII lowercasing), with its aliases.
pub open spec fn op_of_lower(s: Seq<char>) -> Option<Op> {
    if s == "eq"@ {
        Some(Op::Eq)
    } else if s == "ne"@ || s == "not"@ {
        Some(Op::Ne)
    } else if s == "gt"@ {
        Some(Op::Gt)
    } else if s == "gte"@ || s == "ge"@ {
        Some(Op::Gte)
    } else if s == "lt"@ {
        Some(Op::Lt)
    } else if s == "lte"@ || s == "le"@ {
        Some(Op::Lte)
    } else if s == "like"@ {
        Some(Op::Like)
    } else if s == "nlike"@ {
        Some(Op::NLike)
    } else if s == "prefix"@ {
        Some(Op::Prefix)
    } else if s == "suffix"@ {
        Some(Op::Suffix)
    } else if s == "in"@ {
        Some(Op::In)
    } else if s == "nin"@ {
        Some(Op::Nin)
    } else if s == "between"@ {
        Some(Op::Between)
    } else if s == "null"@ || s == "isnull"@ {
        Some(Op::IsNull)
    } else if s == "notnull"@ || s == "isnotnull"@ {
        Some(Op::IsNotNull)
    } else if s == "json_contains"@ {
        Some(Op::JsonContains)
    } else if s == "json_has_all"@ {
        Some(Op::JsonHasAll)
    } else if s == "json_eq"@ {
        Some(Op::JsonEq)
    } else if s == "json_like"@ {
        Some(Op::JsonLike)
    } else if s == "json_len_gte"@ {
        Some(Op::JsonLenGte)
    } else {
        None
    }
}

pub open spec fn op_name(op: Op) -> Seq<char> {
    match op {
        Op::Eq => "eq"@,
        Op::Ne => "ne"@,
        Op::Gt => "gt"@,
        Op::Gte => "gte"@,
        Op::Lt => "lt"@,
        Op::Lte => "lte"@,
        Op::Like => "like"@,
        Op::NLike => "nlike"@,
        Op::Prefix => "prefix"@,
        Op::Suffix => "suffix"@,
        Op::In => "in"@,
        Op::Nin => "nin"@,
        Op::Between => "between"@,
        Op::IsNull => "null"@,
        Op::IsNotNull => "notnull"@,
        Op::JsonContains => "json_contains"@,
        Op::JsonHasAll => "json_has_all"@,
        Op::JsonEq => "json_eq"@,
        Op::JsonLike => "json_like"@,
        Op::JsonLenGte => "json_len_gte"@,
    }
}

pub open spec fn is_json_op(op: Op) -> bool {
    op == Op::JsonContains || op == Op::JsonHasAll || op == Op::JsonEq || op == Op::JsonLike
        || op == Op::JsonLenGte
}

/// (fewest, most) values an operator takes.
pub open spec fn op_arity(op: Op) -> (usize, Option<usize>) {
    match op {
        Op::IsNull | Op::IsNotNull => (0, Some(0)),
        Op::Between => (2, Some(2)),
        Op::JsonContains | Op::JsonEq | Op::JsonLike | Op::JsonLenGte => (1, Some(1)),
        Op::JsonHasAll | Op::In | Op::Nin => (1, None),
        _ => (1, Some(1)),
    }
}

impl Op {
    /// The operator named by a `col__op` suffix.
    pub fn from_suffix(s: &str) -> (r: Option<Op>)
        ensures
            r == op_of_lower(lower(s@)),
    {
        let l = to_lower(s);
        let s = l.as_str();
        if str_eq(s, "eq") {
            Some(Op::Eq)
        } else if str_eq(s, "ne") || str_eq(s, "not") {
            Some(Op::Ne)
        } else if str_eq(s, "gt") {
            Some(Op::Gt)
        } else if str_eq(s, "gte") || str_eq(s, "ge") {
            Some(Op::Gte)
        } else if str_eq(s, "lt") {
            Some(Op::Lt)
        } else if str_eq(s, "lte") || str_eq(s, "le") {
            Some(Op::Lte)
        } else if str_eq(s, "like") {
            Some(Op::Like)
        } else if str_eq(s, "nlike") {
            Some(Op::NLike)
        } else if str_eq(s, "prefix") {
            Some(Op::Prefix)
        } else if str_eq(s, "suffix") {
            Some(Op::Suffix)
        } else if str_eq(s, "in") {
            Some(Op::In)
        } else if str_eq(s, "nin") {
            Some(Op::Nin)
        } else if str_eq(s, "between") {
            Some(Op::Between)
        } else if str_eq(s, "null") || str_eq(s, "isnull") {
            Some(Op::IsNull)
        } else if str_eq(s, "notnull") || str_eq(s, "isnotnull") {
            Some(Op::IsNotNull)
        } else if str_eq(s, "json_contains") {
            Some(Op::JsonContains)
        } else if str_eq(s, "json_has_all") {
            Some(Op::JsonHasAll)
        } else if str_eq(s, "json_eq") {
            Some(Op::JsonEq)
        } else if str_eq(s, "json_like") {
            Some(Op::JsonLike)
        } else if str_eq(s, "json_len_gte") {
            Some(Op::JsonLenGte)
        } else {
            None
        }
    }

    /// The operator named by the `op` field of a POST /query node.
    pub fn from_name(s: &str) -> (r: Option<Op>)
        ensures
            r == op_of_lower(lower(s@)),
    {
        Op::from_suffix(s)
    }

    pub fn name(&self) -> (r: &'static str)
        ensures
            r@ == op_name(*self),
    {
        match self {
            Op::Eq => "eq",
            Op::Ne => "ne",
            Op::Gt => "gt",
            Op::Gte => "gte",
            Op::Lt => "lt",
            Op::Lte => "lte",
            Op::Like => "like",
            Op::NLike => "nlike",
            Op::Prefix => "prefix",
            Op::Suffix => "suffix",
            Op::In => "in",
            Op::Nin => "nin",
            Op::Between => "between",
            Op::IsNull => "null",
            Op::IsNotNull => "notnull",
            Op::JsonContains => "json_contains",
            Op::JsonHasAll => "json_has_all",
            Op::JsonEq => "json_eq",
            Op::JsonLike => "json_like",
            Op::JsonLenGte => "json_len_gte",
        }
    }

    pub fn is_json(&self) -> (r: bool)
        ensures
            r == is_json_op(*self),
    {
        match self {
            Op::JsonContains | Op::JsonHasAll | Op::JsonEq | Op::JsonLike | Op::JsonLenGte => true,
            _ => false,
        }
    }

    /// How many values the operator takes: (fewest, most).
    pub fn arity(&self) -> (r: (usize, Option<usize>))
        ensures
            r == op_arity(*self),
    {
        match self {
            Op::IsNull | Op::IsNotNull => (0, Some(0)),
            Op::Between => (2, Some(2)),
            Op::JsonContains | Op::JsonEq | Op::JsonLike | Op::JsonLenGte => (1, Some(1)),
            Op::JsonHasAll | Op::In | Op::Nin => (1, None),
            _ => (1, Some(1)),
        }
    }
}

// ---------------------------------------------------------------------------
// Condition trees
// ---------------------------------------------------------------------------

#[derive(Debug)]
pub struct Leaf {
    /// as written: `col`, `json_col.path` or `related_table.col`
    pub column: String,
    pub op: Op,
    pub values: Vec<Json>,
}

pub struct LeafV {
    pub column: Seq<char>,
    pub op: Op,
    pub values: Seq<JsonV>,
}

impl View for Leaf {
    type V = LeafV;

    open spec fn view(&self) -> LeafV {
        LeafV { column: self.column@, op: self.op, values: jv_seq(self.values@) }
    }
}

impl Leaf {
    pub fn new(column: String, op: Op, values: Vec<Json>) -> (r: Leaf)
        ensures
            r@ == (LeafV { column: column@, op, values: jv_seq(values@) }),
    {
        Leaf { column, op, values }
    }

    pub fn duplicate(&self) -> (r: Leaf)
        ensures
            r@ == self@,
    {
        Leaf { column: copy_string(&self.column), op: self.op, values: clone_json_vec(&self.values) }
    }
}

#[derive(Debug)]
pub enum Cond {
    And(Vec<Cond>),
    Or(Vec<Cond>),
    Not(Box<Cond>),
    Leaf(Leaf),
}

pub enum CondV {
    And(Seq<CondV>),
    Or(Seq<CondV>),
    Not(Box<CondV>),
    Leaf(LeafV),
}

pub open spec fn cv(c: Cond) -> CondV
    decreases c,
{
    match c {
        Cond::And(v) => CondV::And(cv_seq(v@)),
        Cond::Or(v) => CondV::Or(cv_seq(v@)),
        Cond::Not(b) => CondV::Not(Box::new(cv(*b))),
        Cond::Leaf(l) => CondV::Leaf(l@),
    }
}

pub open spec fn cv_seq(s: Seq<Cond>) -> Seq<CondV>
    decreases s,
{
    if s.len() == 0 {
        Seq::empty()
    } else {
        cv_seq(s.drop_last()).push(cv(s.last()))
    }
}

impl View for Cond {
    type V = CondV;

    open spec fn view(&self) -> CondV {
        cv(*self)
    }
}

pub proof fn lemma_cv_seq(s: Seq<Cond>)
    ensures
        cv_seq(s).len() == s.len(),
        forall|i: int| 0 <= i < s.len() ==> #[trigger] cv_seq(s)[i] == cv(s[i]),
    decreases s.len(),
{
    if s.len() > 0 {
        lemma_cv_seq(s.drop_last());
    }
}

pub proof fn lemma_cv_seq_push(s: Seq<Cond>, x: Cond)
    ensures
        cv_seq(s.push(x)) == cv_seq(s).push(cv(x)),
{
    assert(s.push(x).drop_last() =~= s);
}

/// `Cond::and`/`Cond::or` on views: nothing, the single condition, or the combination.
pub open spec fn combine(v: Seq<CondV>, or: bool) -> Option<CondV> {
    if v.len() == 0 {
        None
    } else if v.len() == 1 {
        Some(v[0])
    } else if or {
        Some(CondV::Or(v))
    } else {
        Some(CondV::And(v))
    }
}

impl Cond {
    /// The conjunction of `v`: none for no condition, the condition itself for one.
    pub fn and(v: Vec<Cond>) -> (r: Option<Cond>)
        ensures
            match r {
                Some(c) => combine(cv_seq(v@), false) == Some(c@),
                None => combine(cv_seq(v@), false) is None,
            },
    {
        proof {
            lemma_cv_seq(v@);
        }
        let mut v = v;
        if v.len() == 0 {
            None
        } else if v.len() == 1 {
            Some(v.remove(0))
        } else {
            Some(Cond::And(v))
        }
    }

    /// The disjunction of `v`: none for no condition, the condition itself for one.
    pub fn or(v: Vec<Cond>) -> (r: Option<Cond>)
        ensures
            match r {
                Some(c) => combine(cv_seq(v@), true) == Some(c@),
                None => combine(cv_seq(v@), true) is None,
            },
    {
        proof {
            lemma_cv_seq(v@);
        }
        let mut v = v;
        if v.len() == 0 {
            None
        } else if v.len() == 1 {
            Some(v.remove(0))
        } else {
            Some(Cond::Or(v))
        }
    }

    pub fn duplicate(&self) -> (r: Cond)
        ensures
            r@ == self@,
        decreases self,
    {
        match self {
            Cond::And(v) => Cond::And(clone_conds(v)),
            Cond::Or(v) => Cond::Or(clone_conds(v)),
            Cond::Not(b) => Cond::Not(Box::new((&**b).duplicate())),
            Cond::Leaf(l) => Cond::Leaf(l.duplicate()),
        }
    }
}

pub fn clone_conds(v: &Vec<Cond>) -> (r: Vec<Cond>)
    ensures
        cv_seq(r@) == cv_seq(v@),
    decreases v,
{
    let mut out: Vec<Cond> = Vec::new();
    let mut i: usize = 0;
    while i < v.len()
        invariant
            i <= v.len(),
            cv_seq(out@) == cv_seq(v@.subrange(0, i as int)),
        decreases v.len() - i,
    {
        let x = v[i].duplicate();
        proof {
            lemma_cv_seq_push(out@, x);
            lemma_cv_seq_push(v@.subrange(0, i as int), v@[i as int]);
            assert(v@.subrange(0, i + 1) =~= v@.subrange(0, i as int).push(v@[i as int]));
        }
        out.push(x);
        i += 1;
    }
    assert(v@.subrange(0, v.len() as int) =~= v@);
    out
}

// ---------------------------------------------------------------------------
// Column references
// ---------------------------------------------------------------------------

#[derive(Debug, Clone)]
pub enum ColRef {
    Base(String),
    Json { column: String, path: String },
    Related { table: String, column: String },
}

pub enum ColRefV {
    Base(Seq<char>),
    Json { column: Seq<char>, path: Seq<char> },
    Related { table: Seq<char>, column: Seq<char> },
}

impl View for ColRef {
    type V = ColRefV;

    open spec fn view(&self) -> ColRefV {
        match self {
            ColRef::Base(c) => ColRefV::Base(c@),
            ColRef::Json { column, path } => ColRefV::Json { column: column@, path: path@ },
            ColRef::Related { table, column } => ColRefV::Related { table: table@, column: column@ },
        }
    }
}

/// Characters allowed in a JSON path.
pub open spec fn path_char_ok(c: char) -> bool {
    c == '$' || c == '.' || c == '[' || c == ']' || c == '_' || alphanumeric(c) || ('\u{4e00}' <= c
        && c <= '\u{9fff}')
}

/// `金融.rank` -> `$.金融.rank`; a path that starts with `$` is kept.  Quotes,
/// semicolons and the like are refused.
pub open spec fn json_path_raw(rest: Seq<char>) -> Seq<char> {
    if rest.len() > 0 && rest[0] == '$' {
        rest
    } else {
        seq!['$', '.'] + rest
    }
}

/// Every character of `s` may stand in a JSON path.
pub open spec fn path_all_ok(s: Seq<char>) -> bool {
    forall|i: int| 0 <= i < s.len() ==> #[trigger] path_char_ok(s[i])
}

pub open spec fn json_path_spec(rest: Seq<char>) -> Result<Seq<char>, ErrV> {
    if path_all_ok(json_path_raw(rest)) {
        Ok(json_path_raw(rest))
    } else {
        Err(e_param("非法的 JSON 路径: "@ + rest))
    }
}

fn json_path(rest: &Vec<char>) -> (r: Result<String, ApiError>)
    ensures
        match r {
            Ok(p) => json_path_spec(rest@) == Ok::<Seq<char>, ErrV>(p@),
            Err(e) => json_path_spec(rest@) == Err::<Seq<char>, ErrV>(e@),
        },
{
    let mut raw: Vec<char> = Vec::new();
    if !(rest.len() > 0 && rest[0] == '$') {
        raw.push('$');
        raw.push('.');
    }
    let mut k: usize = 0;
    while k < rest.len()
        invariant
            k <= rest.len(),
            raw@ == (if rest@.len() > 0 && rest@[0] == '$' {
                Seq::<char>::empty()
            } else {
                seq!['$', '.']
            }) + rest@.subrange(0, k as int),
        decreases rest.len() - k,
    {
        raw.push(rest[k]);
        k += 1;
        assert(raw@ =~= (if rest@.len() > 0 && rest@[0] == '$' {
            Seq::<char>::empty()
        } else {
            seq!['$', '.']
        }) + rest@.subrange(0, k as int));
    }
    assert(rest@.subrange(0, rest.len() as int) =~= rest@);
    assert(raw@ =~= (if rest@.len() > 0 && rest@[0] == '$' {
        rest@
    } else {
        seq!['$', '.'] + rest@
    }));
    let mut i: usize = 0;
    while i < raw.len()
        invariant
            i <= raw.len(),
            raw@ == json_path_raw(rest@),
            forall|q: int| 0 <= q < i ==> #[trigger] path_char_ok(raw@[q]),
        decreases raw.len() - i,
    {
        let ch = raw[i];
        let ok = ch == '$' || ch == '.' || ch == '[' || ch == ']' || ch == '_' || is_alphanumeric(ch)
            || ('\u{4e00}' <= ch && ch <= '\u{9fff}');
        if !ok {
            let rs = string_of(rest.as_slice());
            let m = cat("非法的 JSON 路径: ", rs.as_str());
            let e = ApiError::param(m.as_str());
            assert(!path_char_ok(raw@[i as int]));
            assert(!path_all_ok(json_path_raw(rest@)));
            return Err(e);
        }
        i += 1;
    }
    Ok(string_of(raw.as_slice()))
}

/// How a raw column expression resolves against table `t`.
pub open spec fn resolve_spec(t: Table, reg: Registry, raw: Seq<char>, op: Op) -> Result<ColRefV, ErrV> {
    let r = trim(raw);
    if r.len() == 0 {
        Err(e_param("查询列名不能为空"@))
    } else {
        match first_index(r, '.') {
            None => match t.col(r) {
                None => Err(e_unknown_column(t.name@, r, col_names(t.columns@))),
                Some(_) => if is_json_op(op) {
                    Ok(ColRefV::Json { column: r, path: "$"@ })
                } else {
                    Ok(ColRefV::Base(r))
                },
            },
            Some(i) => {
                let head = r.subrange(0, i);
                let tail = r.subrange(i + 1, r.len() as int);
                if tail.len() == 0 {
                    Err(e_param("列路径不完整: "@ + r))
                } else if is_json_op(op) && t.col(head) is Some && t.col(head)->0.json {
                    match json_path_spec(tail) {
                        Ok(p) => Ok(ColRefV::Json { column: head, path: p }),
                        Err(e) => Err(e),
                    }
                } else if first_belongs(t.belongs_to@, head) is Some {
                    let b = first_belongs(t.belongs_to@, head)->0;
                    match reg.lookup(b.table@) {
                        None => Err(e_unknown_table(b.table@, table_names(reg.all()))),
                        Some(rt) => match rt.col(tail) {
                            None => Err(e_unknown_column(rt.name@, tail, col_names(rt.columns@))),
                            Some(_) => Ok(ColRefV::Related { table: b.table@, column: tail }),
                        },
                    }
                } else if t.col(head) is Some && t.col(head)->0.json {
                    match json_path_spec(tail) {
                        Ok(p) => Ok(ColRefV::Json { column: head, path: p }),
                        Err(e) => Err(e),
                    }
                } else {
                    Err(e_unknown_column(t.name@, r, col_names(t.columns@)))
                }
            },
        }
    }
}

/// Resolves a raw column expression: `col`, `json_col.path` or `related_table.col`.
pub fn resolve(t: &Table, reg: &Registry, raw: &str, op: Op) -> (r: Result<ColRef, ApiError>)
    ensures
        match r {
            Ok(c) => resolve_spec(*t, *reg, raw@, op) == Ok::<ColRefV, ErrV>(c@),
            Err(e) => resolve_spec(*t, *reg, raw@, op) == Err::<ColRefV, ErrV>(e@),
        },
{
    let cs = chars_of(raw);
    let r = trim_chars(&cs);
    if r.len() == 0 {
        return Err(ApiError::param("查询列名不能为空"));
    }
    let rs = string_of(r.as_slice());
    match find_char(&r, '.') {
        None => {
            t.require_column(rs.as_str())?;
            if op.is_json() {
                Ok(ColRef::Json { column: rs, path: owned("$") })
            } else {
                Ok(ColRef::Base(rs))
            }
        },
        Some(i) => {
            let head = slice_chars(&r, 0, i);
            let tail = slice_chars(&r, i + 1, r.len());
            let hs = string_of(head.as_slice());
            let ts = string_of(tail.as_slice());
            if tail.len() == 0 {
                let m = cat("列路径不完整: ", rs.as_str());
                return Err(ApiError::param(m.as_str()));
            }
            if op.is_json() {
                if let Some(c) = t.column(hs.as_str()) {
                    if c.json {
                        let p = json_path(&tail)?;
                        return Ok(ColRef::Json { column: hs, path: p });
                    }
                }
            }
            if let Some(b) = t.belongs(hs.as_str()) {
                let rt = reg.table(b.table.as_str())?;
                rt.require_column(ts.as_str())?;
                return Ok(ColRef::Related { table: copy_string(&b.table), column: ts });
            }
            if let Some(c) = t.column(hs.as_str()) {
                if c.json {
                    let p = json_path(&tail)?;
                    return Ok(ColRef::Json { column: hs, path: p });
                }
            }
            Err(ApiError::unknown_column(t.name.as_str(), rs.as_str(), t.column_names()))
        },
    }
}

// ---------------------------------------------------------------------------
// Rendering
// ---------------------------------------------------------------------------

/// A double-quoted SQL identifier.
pub open spec fn qi(x: Seq<char>) -> Seq<char> {
    seq!['"'] + x + seq!['"']
}

pub fn quote_ident(x: &str) -> (r: String)
    ensures
        r@ == qi(x@),
{
    proof {
        reveal_strlit("\"");
    }
    cat3("\"", x, "\"")
}

/// `"a"."b"`
pub open spec fn qi2(a: Seq<char>, b: Seq<char>) -> Seq<char> {
    qi(a) + seq!['.'] + qi(b)
}

pub fn quote_pair(a: &str, b: &str) -> (r: String)
    ensures
        r@ == qi2(a@, b@),
{
    let x = quote_ident(a);
    let y = quote_ident(b);
    proof {
        reveal_strlit(".");
    }
    let s = cat3(x.as_str(), ".", y.as_str());
    s
}

pub open spec fn json_each_op(op: Op) -> bool {
    op == Op::JsonContains || op == Op::JsonHasAll || op == Op::JsonLike
}

/// The column definition a resolved reference reads.
pub open spec fn coldef_spec(t: Table, reg: Registry, c: ColRefV) -> Result<Column, ErrV> {
    match c {
        ColRefV::Base(n) => match t.col(n) {
            Some(d) => Ok(d),
            None => Err(e_unknown_column(t.name@, n, col_names(t.columns@))),
        },
        ColRefV::Json { column, .. } => match t.col(column) {
            Some(d) => Ok(d),
            None => Err(e_unknown_column(t.name@, column, col_names(t.columns@))),
        },
        ColRefV::Related { table, column } => match reg.lookup(table) {
            None => Err(e_unknown_table(table, table_names(reg.all()))),
            Some(rt) => match rt.col(column) {
                Some(d) => Ok(d),
                None => Err(e_unknown_column(rt.name@, column, col_names(rt.columns@))),
            },
        },
    }
}

/// SQL text for a resolved column reference, and the parameters it consumes.
pub open spec fn col_expr_spec(t: Table, reg: Registry, alias: Seq<char>, c: ColRefV, op: Op) -> Result<(Seq<char>, Seq<SqlV>), ErrV> {
    match c {
        ColRefV::Base(n) => Ok((qi2(alias, n), Seq::empty())),
        ColRefV::Related { table, column } => match coldef_spec(t, reg, c) {
            Ok(_) => Ok((qi2(table, column), Seq::empty())),
            Err(e) => Err(e),
        },
        ColRefV::Json { column, path } => match t.col(column) {
            None => Err(e_unknown_column(t.name@, column, col_names(t.columns@))),
            Some(d) => if !d.json {
                Err(e_validation_many(seq![fe(column, "该列不是 JSON 列，不能使用 json_* 操作符"@)]))
            } else if json_each_op(op) {
                Ok(("json_each("@ + qi2(alias, column) + ", ?)"@, seq![SqlV::Text(path)]))
            } else {
                Ok(("json_extract("@ + qi2(alias, column) + ", ?)"@, seq![SqlV::Text(path)]))
            },
        },
    }
}

fn coldef<'a>(t: &'a Table, reg: &'a Registry, c: &ColRef) -> (r: Result<&'a Column, ApiError>)
    ensures
        match r {
            Ok(d) => coldef_spec(*t, *reg, c@) == Ok::<Column, ErrV>(*d),
            Err(e) => coldef_spec(*t, *reg, c@) == Err::<Column, ErrV>(e@),
        },
{
    match c {
        ColRef::Base(n) => t.require_column(n.as_str()),
        ColRef::Json { column, .. } => t.require_column(column.as_str()),
        ColRef::Related { table, column } => {
            let rt = reg.table(table.as_str())?;
            rt.require_column(column.as_str())
        },
    }
}

fn col_expr(t: &Table, reg: &Registry, alias: &str, c: &ColRef, op: Op, params: &mut Vec<SqlVal>) -> (r: Result<String, ApiError>)
    ensures
        match r {
            Ok(s) => col_expr_spec(*t, *reg, alias@, c@, op) matches Ok(x) && x.0 == s@ && sql_view(final(params)@) == sql_view(old(params)@) + x.1,
            Err(e) => col_expr_spec(*t, *reg, alias@, c@, op) == Err::<(Seq<char>, Seq<SqlV>), ErrV>(e@) && final(params)@ == old(params)@,
        },
{
    match c {
        ColRef::Base(n) => {
            assert(sql_view(params@) + Seq::<SqlV>::empty() =~= sql_view(params@));
            Ok(quote_pair(alias, n.as_str()))
        },
        ColRef::Related { table, column } => {
            coldef(t, reg, c)?;
            assert(sql_view(params@) + Seq::<SqlV>::empty() =~= sql_view(params@));
            Ok(quote_pair(table.as_str(), column.as_str()))
        },
        ColRef::Json { column, path } => {
            let d = t.require_column(column.as_str())?;
            if !d.json {
                let mut errs: Vec<FieldError> = Vec::new();
                errs.push(FieldError::new(column.as_str(), "该列不是 JSON 列，不能使用 json_* 操作符"));
                let e = ApiError::validation_many(errs);
                assert(field_errs_view(e.errors@) =~= seq![fe(column@, "该列不是 JSON 列，不能使用 json_* 操作符"@)]);
                return Err(e);
            }
            let ghost before = params@;
            params.push(SqlVal::Text(copy_string(path)));
            assert(sql_view(params@) =~= sql_view(before) + seq![SqlV::Text(path@)]);
            let q = quote_pair(alias, column.as_str());
            if op == Op::JsonContains || op == Op::JsonHasAll || op == Op::JsonLike {
                Ok(cat3("json_each(", q.as_str(), ", ?)"))
            } else {
                Ok(cat3("json_extract(", q.as_str(), ", ?)"))
            }
        },
    }
}

/// Text binding of any JSON value (strings as they are, `null` as NULL, the rest as JSON text).
pub open spec fn as_text_spec(v: JsonV) -> SqlV {
    match v {
        JsonV::Str(s) => SqlV::Text(s),
        JsonV::Null => SqlV::Null,
        _ => SqlV::Text(json_text(v)),
    }
}

/// Text of a JSON array element for comparison (strings as they are, `null` as empty).
pub open spec fn value_text(v: JsonV) -> Seq<char> {
    match v {
        JsonV::Str(s) => s,
        JsonV::Null => Seq::empty(),
        _ => json_text(v),
    }
}

fn as_text(v: &Json) -> (r: SqlVal)
    ensures
        r@ == as_text_spec(v@),
{
    match v {
        Json::Str(s) => SqlVal::Text(copy_string(s)),
        Json::Null => SqlVal::Null,
        _ => SqlVal::Text(to_json_text(v)),
    }
}

fn value_as_text(v: &Json) -> (r: String)
    ensures
        r@ == value_text(v@),
{
    match v {
        Json::Str(s) => copy_string(s),
        Json::Null => String::new(),
        _ => to_json_text(v),
    }
}

/// Operators that compare text, so values skip the enum and type checks (a keyword
/// search over an enum column must not fail as "not in the enum").
pub open spec fn text_only(op: Op) -> bool {
    op == Op::Like || op == Op::NLike || op == Op::Prefix || op == Op::Suffix || op == Op::JsonContains
        || op == Op::JsonHasAll || op == Op::JsonLike
}

pub open spec fn to_sql_spec(d: Column, op: Op, v: JsonV) -> Result<SqlV, ErrV> {
    if text_only(op) {
        Ok(as_text_spec(v))
    } else {
        json_to_sql_spec(d, v)
    }
}

/// The bindings of several values, left to right; the first refusal wins.
pub open spec fn to_sql_all(d: Column, op: Op, vals: Seq<JsonV>) -> Result<Seq<SqlV>, ErrV>
    decreases vals.len(),
{
    if vals.len() == 0 {
        Ok(Seq::empty())
    } else {
        match to_sql_all(d, op, vals.drop_last()) {
            Err(e) => Err(e),
            Ok(ps) => match to_sql_spec(d, op, vals.last()) {
                Ok(p) => Ok(ps.push(p)),
                Err(e) => Err(e),
            },
        }
    }
}

fn to_sql(d: &Column, op: Op, v: &Json) -> (r: Result<SqlVal, ApiError>)
    ensures
        match r {
            Ok(x) => to_sql_spec(*d, op, v@) == Ok::<SqlV, ErrV>(x@),
            Err(e) => to_sql_spec(*d, op, v@) == Err::<SqlV, ErrV>(e@),
        },
{
    if op == Op::Like || op == Op::NLike || op == Op::Prefix || op == Op::Suffix || op
        == Op::JsonContains || op == Op::JsonHasAll || op == Op::JsonLike {
        Ok(as_text(v))
    } else {
        json_to_sql(d, v)
    }
}

/// Binds every value of `vals` and appends the bindings to `params`.
fn push_all(d: &Column, op: Op, vals: &Vec<Json>, params: &mut Vec<SqlVal>) -> (r: Result<(), ApiError>)
    ensures
        match r {
            Ok(_) => to_sql_all(*d, op, jv_seq(vals@)) matches Ok(ps) && sql_view(final(params)@) == sql_view(old(params)@) + ps,
            Err(e) => to_sql_all(*d, op, jv_seq(vals@)) == Err::<Seq<SqlV>, ErrV>(e@),
        },
{
    let ghost start = sql_view(params@);
    let mut i: usize = 0;
    proof {
        lemma_jv_seq(vals@);
        assert(jv_seq(vals@).subrange(0, 0) =~= Seq::<JsonV>::empty());
    }
    while i < vals.len()
        invariant
            i <= vals.len(),
            jv_seq(vals@).len() == vals.len(),
            forall|q: int| 0 <= q < vals.len() ==> #[trigger] jv_seq(vals@)[q] == jv(vals@[q]),
            to_sql_all(*d, op, jv_seq(vals@).subrange(0, i as int)) matches Ok(ps) && sql_view(params@) == start + ps,
        decreases vals.len() - i,
    {
        let ghost sub = jv_seq(vals@).subrange(0, i + 1);
        assert(sub.drop_last() =~= jv_seq(vals@).subrange(0, i as int));
        assert(sub.last() == jv(vals@[i as int]));
        let x = to_sql(d, op, &vals[i]);
        match x {
            Ok(p) => {
                let ghost before = params@;
                params.push(p);
                assert(sql_view(params@) =~= sql_view(before).push(p@));
            },
            Err(e) => {
                proof {
                    lemma_to_sql_all_prefix_err(*d, op, jv_seq(vals@), i as int + 1);
                }
                return Err(e);
            },
        }
        i += 1;
    }
    assert(jv_seq(vals@).subrange(0, vals.len() as int) =~= jv_seq(vals@));
    Ok(())
}

/// A refusal among the first values is a refusal of the whole list.
proof fn lemma_to_sql_all_prefix_err(d: Column, op: Op, vals: Seq<JsonV>, k: int)
    requires
        0 <= k <= vals.len(),
        to_sql_all(d, op, vals.subrange(0, k)) is Err,
    ensures
        to_sql_all(d, op, vals) == to_sql_all(d, op, vals.subrange(0, k)),
    decreases vals.len() - k,
{
    if k < vals.len() {
        assert(vals.subrange(0, k + 1).drop_last() =~= vals.subrange(0, k));
        lemma_to_sql_all_prefix_err(d, op, vals, k + 1);
    } else {
        assert(vals.subrange(0, k) =~= vals);
    }
}

/// The count message of an arity error.
pub open spec fn arity_text(op: Op) -> Seq<char> {
    let (a, m) = op_arity(op);
    match m {
        Some(b) => if a == b {
            nat_text(a as nat)
        } else {
            nat_text(a as nat) + "~"@ + nat_text(b as nat)
        },
        None => "至少 "@ + nat_text(a as nat),
    }
}

pub open spec fn arity_ok(op: Op, n: nat) -> bool {
    let (a, m) = op_arity(op);
    a <= n && match m {
        Some(b) => n <= b,
        None => true,
    }
}

pub open spec fn e_arity(op: Op, n: nat) -> ErrV {
    e_param("操作符 "@ + op_name(op) + " 需要 "@ + arity_text(op) + " 个值，实际收到 "@ + nat_text(n))
}

/// The values an `in`/`nin` leaf tests: the elements of a single array value, or the values.
pub open spec fn in_values(vals: Seq<JsonV>) -> Seq<JsonV> {
    if vals.len() == 1 && vals[0] is Array {
        vals[0]->Array_0
    } else {
        vals
    }
}

pub open spec fn exists_part(expr: Seq<char>) -> Seq<char> {
    "EXISTS (SELECT 1 FROM "@ + expr + " je WHERE CAST(je.value AS TEXT) = ?)"@
}

pub open spec fn repeat_text(x: Seq<char>, n: nat) -> Seq<Seq<char>> {
    Seq::new(n, |i: int| x)
}

/// The SQL of a one-value comparison on `expr`.
pub open spec fn single_sql(op: Op, expr: Seq<char>) -> Seq<char> {
    match op {
        Op::Eq => expr + " = ?"@,
        Op::Ne => expr + " <> ?"@,
        Op::Gt => expr + " > ?"@,
        Op::Gte => expr + " >= ?"@,
        Op::Lt => expr + " < ?"@,
        Op::Lte => expr + " <= ?"@,
        Op::Like => expr + " LIKE '%' || ? || '%'"@,
        Op::NLike => expr + " NOT LIKE '%' || ? || '%'"@,
        Op::Prefix => expr + " LIKE ? || '%'"@,
        _ => expr + " LIKE '%' || ?"@,
    }
}

/// The SQL of a leaf whose column expression is `expr`, given the bindings of its values.
pub open spec fn leaf_tail(op: Op, expr: Seq<char>, d: Column, vals: Seq<JsonV>) -> Result<(Seq<char>, Seq<SqlV>), ErrV> {
    match op {
        Op::IsNull => Ok((expr + " IS NULL"@, Seq::empty())),
        Op::IsNotNull => Ok((expr + " IS NOT NULL"@, Seq::empty())),
        Op::JsonContains | Op::JsonHasAll => Ok((
            "("@ + join(repeat_text(exists_part(expr), vals.len()), " AND "@) + ")"@,
            vals.map_values(|v: JsonV| SqlV::Text(value_text(v))),
        )),
        Op::JsonLike => match to_sql_spec(d, op, vals[0]) {
            Ok(p) => Ok((
                "EXISTS (SELECT 1 FROM "@ + expr + " je WHERE CAST(je.value AS TEXT) LIKE '%' || ? || '%')"@,
                seq![p],
            )),
            Err(e) => Err(e),
        },
        Op::JsonLenGte => Ok(("json_array_length("@ + expr + ") >= ?"@, seq![json_scalar_spec(vals[0])])),
        Op::JsonEq => Ok((expr + " = ?"@, seq![json_scalar_spec(vals[0])])),
        Op::Eq | Op::Ne | Op::Gt | Op::Gte | Op::Lt | Op::Lte | Op::Like | Op::NLike | Op::Prefix
        | Op::Suffix => match to_sql_spec(d, op, vals[0]) {
            Ok(p) => Ok((single_sql(op, expr), seq![p])),
            Err(e) => Err(e),
        },
        Op::In | Op::Nin => {
            let iv = in_values(vals);
            if iv.len() == 0 {
                Ok((if op == Op::In { "1 = 0"@ } else { "1 = 1"@ }, Seq::empty()))
            } else {
                match to_sql_all(d, op, iv) {
                    Ok(ps) => Ok((
                        expr + (if op == Op::Nin { " NOT IN ("@ } else { " IN ("@ }) + join(
                            repeat_text("?"@, iv.len()),
                            ", "@,
                        ) + ")"@,
                        ps,
                    )),
                    Err(e) => Err(e),
                }
            }
        },
        Op::Between => match to_sql_all(d, op, vals) {
            Ok(ps) => Ok((expr + " BETWEEN ? AND ?"@, ps)),
            Err(e) => Err(e),
        },
    }
}

/// The bindings of `ps` with those of the column expression (`pre`) before each.
pub open spec fn spread(pre: Seq<SqlV>, ps: Seq<SqlV>) -> Seq<SqlV>
    decreases ps.len(),
{
    if ps.len() == 0 {
        Seq::empty()
    } else {
        spread(pre, ps.drop_last()) + pre + seq![ps.last()]
    }
}

/// The parameters of a leaf, in placeholder order: the column expression's own
/// (the JSON path) come before the values, once for every `EXISTS` of
/// `json_contains`/`json_has_all`; an empty `in`/`nin` list binds nothing.
pub open spec fn leaf_binds(op: Op, pre: Seq<SqlV>, vals: Seq<JsonV>, ps: Seq<SqlV>) -> Seq<SqlV> {
    if op == Op::JsonContains || op == Op::JsonHasAll {
        spread(pre, ps)
    } else if (op == Op::In || op == Op::Nin) && in_values(vals).len() == 0 {
        Seq::empty()
    } else {
        pre + ps
    }
}

/// SQL for one leaf condition, and the parameters it appends, or why it is refused.
pub open spec fn leaf_sql(t: Table, reg: Registry, alias: Seq<char>, l: LeafV) -> Result<(Seq<char>, Seq<SqlV>), ErrV> {
    if !arity_ok(l.op, l.values.len()) {
        Err(e_arity(l.op, l.values.len()))
    } else {
        match resolve_spec(t, reg, l.column, l.op) {
            Err(e) => Err(e),
            Ok(c) => match coldef_spec(t, reg, c) {
                Err(e) => Err(e),
                Ok(d) => match col_expr_spec(t, reg, alias, c, l.op) {
                    Err(e) => Err(e),
                    Ok((expr, pre)) => match leaf_tail(l.op, expr, d, l.values) {
                        Err(e) => Err(e),
                        Ok((sql, ps)) => Ok((sql, leaf_binds(l.op, pre, l.values, ps))),
                    },
                },
            },
        }
    }
}


/// `n` copies of `x`, joined by `sep`.
pub fn repeat_join(x: &str, n: usize, sep: &str) -> (r: String)
    ensures
        r@ == join(repeat_text(x@, n as nat), sep@),
{
    let mut parts: Vec<String> = Vec::new();
    let mut i: usize = 0;
    while i < n
        invariant
            i <= n,
            parts.deep_view() == repeat_text(x@, i as nat),
        decreases n - i,
    {
        let ghost before = parts.deep_view();
        parts.push(owned(x));
        assert(parts.deep_view() =~= before.push(x@));
        i += 1;
        assert(parts.deep_view() =~= repeat_text(x@, i as nat));
    }
    join_strings(&parts, sep)
}

/// The count text of an arity error.
fn arity_message(op: Op, n: usize) -> (r: String)
    ensures
        r@ == "操作符 "@ + op_name(op) + " 需要 "@ + arity_text(op) + " 个值，实际收到 "@ + nat_text(n as nat),
{
    let (a, m) = op.arity();
    let want = match m {
        Some(b) => if a == b {
            usize_text(a)
        } else {
            let x = usize_text(a);
            let y = usize_text(b);
            cat3(x.as_str(), "~", y.as_str())
        },
        None => {
            let x = usize_text(a);
            cat("至少 ", x.as_str())
        },
    };
    let head = cat3("操作符 ", op.name(), " 需要 ");
    let mid = cat3(head.as_str(), want.as_str(), " 个值，实际收到 ");
    let cnt = usize_text(n);
    let r = cat(mid.as_str(), cnt.as_str());
    assert(r@ =~= "操作符 "@ + op_name(op) + " 需要 "@ + arity_text(op) + " 个值，实际收到 "@ + nat_text(n as nat));
    r
}

/// Refuses a value count that the operator does not take.
fn check_arity(op: Op, n: usize) -> (r: Result<(), ApiError>)
    ensures
        r is Ok <==> arity_ok(op, n as nat),
        r matches Err(e) ==> e@ == e_arity(op, n as nat),
{
    let (a, m) = op.arity();
    let ok = a <= n && match m {
        Some(b) => n <= b,
        None => true,
    };
    if ok {
        Ok(())
    } else {
        let msg = arity_message(op, n);
        Err(ApiError::param(msg.as_str()))
    }
}

/// `(EXISTS .. AND EXISTS ..)` for `json_contains`/`json_has_all`, one text binding per value.
fn render_exists(expr: &str, vals: &Vec<Json>, params: &mut Vec<SqlVal>) -> (r: String)
    ensures
        r@ == "("@ + join(repeat_text(exists_part(expr@), jv_seq(vals@).len()), " AND "@) + ")"@,
        sql_view(final(params)@) == sql_view(old(params)@) + jv_seq(vals@).map_values(
            |v: JsonV| SqlV::Text(value_text(v)),
        ),
{
    proof {
        lemma_jv_seq(vals@);
    }
    let ghost start = sql_view(params@);
    let ghost f = |v: JsonV| SqlV::Text(value_text(v));
    let mut i: usize = 0;
    assert(jv_seq(vals@).subrange(0, 0).map_values(f) =~= Seq::<SqlV>::empty());
    while i < vals.len()
        invariant
            i <= vals.len(),
            jv_seq(vals@).len() == vals.len(),
            forall|q: int| 0 <= q < vals.len() ==> #[trigger] jv_seq(vals@)[q] == jv(vals@[q]),
            f == (|v: JsonV| SqlV::Text(value_text(v))),
            sql_view(params@) == start + jv_seq(vals@).subrange(0, i as int).map_values(f),
        decreases vals.len() - i,
    {
        let t = value_as_text(&vals[i]);
        let ghost before = sql_view(params@);
        params.push(SqlVal::Text(t));
        assert(sql_view(params@) =~= before.push(SqlV::Text(value_text(jv(vals@[i as int])))));
        assert(jv_seq(vals@).subrange(0, i + 1).map_values(f) =~= jv_seq(vals@).subrange(
            0,
            i as int,
        ).map_values(f).push(f(jv_seq(vals@)[i as int])));
        i += 1;
    }
    assert(jv_seq(vals@).subrange(0, vals.len() as int) =~= jv_seq(vals@));
    let part = cat3("EXISTS (SELECT 1 FROM ", expr, " je WHERE CAST(je.value AS TEXT) = ?)");
    let body = repeat_join(part.as_str(), vals.len(), " AND ");
    cat3("(", body.as_str(), ")")
}

/// `expr [NOT] IN (?, ..)`, or the constant answer for an empty list.
fn render_in(op: Op, expr: &str, d: &Column, vals: &Vec<Json>, params: &mut Vec<SqlVal>) -> (r: Result<String, ApiError>)
    requires
        op == Op::In || op == Op::Nin,
        vals.len() >= 1,
    ensures
        match r {
            Ok(s) => leaf_tail(op, expr@, *d, jv_seq(vals@)) matches Ok(x) && x.0 == s@ && sql_view(final(params)@) == sql_view(old(params)@) + x.1,
            Err(e) => leaf_tail(op, expr@, *d, jv_seq(vals@)) == Err::<(Seq<char>, Seq<SqlV>), ErrV>(e@),
        },
{
    proof {
        lemma_jv_seq(vals@);
    }
    let iv: &Vec<Json> = if vals.len() == 1 {
        match &vals[0] {
            Json::Array(a) => a,
            _ => vals,
        }
    } else {
        vals
    };
    assert(in_values(jv_seq(vals@)) == jv_seq(iv@));
    proof {
        lemma_jv_seq(iv@);
    }
    if iv.len() == 0 {
        assert(sql_view(params@) + Seq::<SqlV>::empty() =~= sql_view(params@));
        if op == Op::In {
            return Ok(owned("1 = 0"));
        } else {
            return Ok(owned("1 = 1"));
        }
    }
    push_all(d, op, iv, params)?;
    let ph = repeat_join("?", iv.len(), ", ");
    let head = if op == Op::Nin {
        cat(expr, " NOT IN (")
    } else {
        cat(expr, " IN (")
    };
    let s = cat3(head.as_str(), ph.as_str(), ")");
    assert(s@ =~= expr@ + (if op == Op::Nin { " NOT IN ("@ } else { " IN ("@ }) + join(
        repeat_text("?"@, iv.len() as nat),
        ", "@,
    ) + ")"@);
    Ok(s)
}

/// The SQL of a leaf once its column expression is known; appends the value bindings.
fn render_tail(op: Op, expr: &str, d: &Column, vals: &Vec<Json>, params: &mut Vec<SqlVal>) -> (r: Result<String, ApiError>)
    requires
        arity_ok(op, vals.len() as nat),
    ensures
        match r {
            Ok(s) => leaf_tail(op, expr@, *d, jv_seq(vals@)) matches Ok(x) && x.0 == s@ && sql_view(final(params)@) == sql_view(old(params)@) + x.1,
            Err(e) => leaf_tail(op, expr@, *d, jv_seq(vals@)) == Err::<(Seq<char>, Seq<SqlV>), ErrV>(e@),
        },
{
    proof {
        lemma_jv_seq(vals@);
    }
    let ghost start = sql_view(params@);
    match op {
        Op::IsNull => {
            assert(start + Seq::<SqlV>::empty() =~= start);
            Ok(cat(expr, " IS NULL"))
        },
        Op::IsNotNull => {
            assert(start + Seq::<SqlV>::empty() =~= start);
            Ok(cat(expr, " IS NOT NULL"))
        },
        Op::JsonContains | Op::JsonHasAll => Ok(render_exists(expr, vals, params)),
        Op::In | Op::Nin => render_in(op, expr, d, vals, params),
        Op::Between => {
            push_all(d, op, vals, params)?;
            Ok(cat(expr, " BETWEEN ? AND ?"))
        },
        Op::JsonLenGte => {
            let p = json_scalar_to_sql(&vals[0]);
            params.push(p);
            assert(sql_view(params@) =~= start + seq![json_scalar_spec(jv_seq(vals@)[0])]);
            Ok(cat3("json_array_length(", expr, ") >= ?"))
        },
        Op::JsonEq => {
            let p = json_scalar_to_sql(&vals[0]);
            params.push(p);
            assert(sql_view(params@) =~= start + seq![json_scalar_spec(jv_seq(vals@)[0])]);
            Ok(cat(expr, " = ?"))
        },
        Op::JsonLike => {
            let p = to_sql(d, op, &vals[0])?;
            params.push(p);
            assert(sql_view(params@) =~= start + seq![p@]);
            Ok(cat3("EXISTS (SELECT 1 FROM ", expr, " je WHERE CAST(je.value AS TEXT) LIKE '%' || ? || '%')"))
        },
        _ => {
            let p = to_sql(d, op, &vals[0])?;
            params.push(p);
            assert(sql_view(params@) =~= start + seq![p@]);
            let s = match op {
                Op::Eq => cat(expr, " = ?"),
                Op::Ne => cat(expr, " <> ?"),
                Op::Gt => cat(expr, " > ?"),
                Op::Gte => cat(expr, " >= ?"),
                Op::Lt => cat(expr, " < ?"),
                Op::Lte => cat(expr, " <= ?"),
                Op::Like => cat(expr, " LIKE '%' || ? || '%'"),
                Op::NLike => cat(expr, " NOT LIKE '%' || ? || '%'"),
                Op::Prefix => cat(expr, " LIKE ? || '%'"),
                _ => cat(expr, " LIKE '%' || ?"),
            };
            Ok(s)
        },
    }
}

/// Appends `xs` to `params`.
fn push_binds(params: &mut Vec<SqlVal>, xs: &Vec<SqlVal>)
    ensures
        sql_view(final(params)@) == sql_view(old(params)@) + sql_view(xs@),
{
    let ghost start = sql_view(params@);
    let mut i: usize = 0;
    assert(sql_view(xs@).subrange(0, 0) =~= Seq::<SqlV>::empty());
    while i < xs.len()
        invariant
            i <= xs.len(),
            sql_view(params@) == start + sql_view(xs@).subrange(0, i as int),
        decreases xs.len() - i,
    {
        let ghost before = sql_view(params@);
        params.push(clone_sql(&xs[i]));
        assert(sql_view(params@) =~= before.push(xs@[i as int]@));
        assert(sql_view(xs@).subrange(0, i + 1) =~= sql_view(xs@).subrange(0, i as int).push(xs@[i as int]@));
        i += 1;
    }
    assert(sql_view(xs@).subrange(0, xs.len() as int) =~= sql_view(xs@));
}

/// Whether an `in`/`nin` leaf tests no value at all.
fn in_list_empty(vals: &Vec<Json>) -> (r: bool)
    ensures
        r == (in_values(jv_seq(vals@)).len() == 0),
{
    proof {
        lemma_jv_seq(vals@);
    }
    if vals.len() == 1 {
        match &vals[0] {
            Json::Array(a) => {
                proof {
                    lemma_jv_seq(a@);
                }
                a.len() == 0
            },
            _ => false,
        }
    } else {
        vals.len() == 0
    }
}

/// Appends the bindings of a leaf: see `leaf_binds`.
fn push_leaf_binds(op: Op, pre: &Vec<SqlVal>, vals: &Vec<Json>, ps: &Vec<SqlVal>, params: &mut Vec<SqlVal>)
    ensures
        sql_view(final(params)@) == sql_view(old(params)@) + leaf_binds(op, sql_view(pre@), jv_seq(vals@), sql_view(ps@)),
{
    if op == Op::JsonContains || op == Op::JsonHasAll {
        let ghost start = sql_view(params@);
        let ghost pv = sql_view(pre@);
        let mut i: usize = 0;
        assert(sql_view(ps@).subrange(0, 0) =~= Seq::<SqlV>::empty());
        while i < ps.len()
            invariant
                i <= ps.len(),
                pv == sql_view(pre@),
                sql_view(params@) == start + spread(pv, sql_view(ps@).subrange(0, i as int)),
            decreases ps.len() - i,
        {
            push_binds(params, pre);
            let ghost before = sql_view(params@);
            params.push(clone_sql(&ps[i]));
            assert(sql_view(params@) =~= before.push(ps@[i as int]@));
            let ghost sub = sql_view(ps@).subrange(0, i + 1);
            assert(sub.drop_last() =~= sql_view(ps@).subrange(0, i as int));
            assert(sub.last() == ps@[i as int]@);
            assert(sql_view(params@) =~= start + spread(pv, sub));
            i += 1;
        }
        assert(sql_view(ps@).subrange(0, ps.len() as int) =~= sql_view(ps@));
    } else if (op == Op::In || op == Op::Nin) && in_list_empty(vals) {
        assert(sql_view(params@) + Seq::<SqlV>::empty() =~= sql_view(params@));
    } else {
        let ghost start = sql_view(params@);
        push_binds(params, pre);
        push_binds(params, ps);
        assert(sql_view(params@) =~= start + (sql_view(pre@) + sql_view(ps@)));
    }
}

/// Renders one leaf condition, appending its bindings to `params` in placeholder
/// order; a refused leaf leaves `params` as it was.
pub fn render_leaf(t: &Table, reg: &Registry, alias: &str, leaf: &Leaf, params: &mut Vec<SqlVal>) -> (r: Result<String, ApiError>)
    ensures
        match r {
            Ok(s) => leaf_sql(*t, *reg, alias@, leaf@) matches Ok(x) && x.0 == s@ && sql_view(final(params)@) == sql_view(old(params)@) + x.1,
            Err(e) => leaf_sql(*t, *reg, alias@, leaf@) == Err::<(Seq<char>, Seq<SqlV>), ErrV>(e@) && final(params)@ == old(params)@,
        },
{
    proof {
        lemma_jv_seq(leaf.values@);
    }
    let op = leaf.op;
    check_arity(op, leaf.values.len())?;
    let c = resolve(t, reg, leaf.column.as_str(), op)?;
    let d = coldef(t, reg, &c)?;
    let mut pre: Vec<SqlVal> = Vec::new();
    let expr = col_expr(t, reg, alias, &c, op, &mut pre)?;
    let mut tail: Vec<SqlVal> = Vec::new();
    let s = render_tail(op, expr.as_str(), d, &leaf.values, &mut tail)?;
    proof {
        assert(sql_view(Seq::<SqlVal>::empty()) =~= Seq::<SqlV>::empty());
        assert(Seq::<SqlV>::empty() + sql_view(pre@) =~= sql_view(pre@));
        assert(Seq::<SqlV>::empty() + sql_view(tail@) =~= sql_view(tail@));
    }
    push_leaf_binds(op, &pre, &leaf.values, &tail, params);
    Ok(s)
}

/// SQL of a whole condition tree and its bindings, in placeholder order.
pub open spec fn cond_sql(t: Table, reg: Registry, alias: Seq<char>, c: CondV) -> Result<(Seq<char>, Seq<SqlV>), ErrV>
    decreases c,
{
    match c {
        CondV::Leaf(l) => leaf_sql(t, reg, alias, l),
        CondV::And(v) => match conds_sql(t, reg, alias, v) {
            Err(e) => Err(e),
            Ok((parts, ps)) => Ok((
                if parts.len() == 0 {
                    "1 = 1"@
                } else {
                    "("@ + join(parts, " AND "@) + ")"@
                },
                ps,
            )),
        },
        CondV::Or(v) => match conds_sql(t, reg, alias, v) {
            Err(e) => Err(e),
            Ok((parts, ps)) => Ok((
                if parts.len() == 0 {
                    "1 = 0"@
                } else {
                    "("@ + join(parts, " OR "@) + ")"@
                },
                ps,
            )),
        },
        CondV::Not(b) => match cond_sql(t, reg, alias, *b) {
            Err(e) => Err(e),
            Ok((x, ps)) => Ok(("(NOT "@ + x + ")"@, ps)),
        },
    }
}

/// The SQL of each condition of `v`, left to right, and all their bindings; the first refusal wins.
pub open spec fn conds_sql(t: Table, reg: Registry, alias: Seq<char>, v: Seq<CondV>) -> Result<(Seq<Seq<char>>, Seq<SqlV>), ErrV>
    decreases v,
{
    if v.len() == 0 {
        Ok((Seq::empty(), Seq::empty()))
    } else {
        match conds_sql(t, reg, alias, v.drop_last()) {
            Err(e) => Err(e),
            Ok((parts, ps)) => match cond_sql(t, reg, alias, v.last()) {
                Err(e) => Err(e),
                Ok((x, qs)) => Ok((parts.push(x), ps + qs)),
            },
        }
    }
}

/// A refusal among the first conditions is a refusal of the whole list.
proof fn lemma_conds_prefix_err(t: Table, reg: Registry, alias: Seq<char>, v: Seq<CondV>, k: int)
    requires
        0 <= k <= v.len(),
        conds_sql(t, reg, alias, v.subrange(0, k)) is Err,
    ensures
        conds_sql(t, reg, alias, v) == conds_sql(t, reg, alias, v.subrange(0, k)),
    decreases v.len() - k,
{
    if k < v.len() {
        assert(v.subrange(0, k + 1).drop_last() =~= v.subrange(0, k));
        lemma_conds_prefix_err(t, reg, alias, v, k + 1);
    } else {
        assert(v.subrange(0, k) =~= v);
    }
}

/// Renders each condition of `v` in order; the SQL parts, with the bindings appended to `params`.
fn render_conds(t: &Table, reg: &Registry, alias: &str, v: &Vec<Cond>, params: &mut Vec<SqlVal>) -> (r: Result<Vec<String>, ApiError>)
    ensures
        match r {
            Ok(parts) => conds_sql(*t, *reg, alias@, cv_seq(v@)) matches Ok(x) && x.0 == parts.deep_view() && sql_view(final(params)@) == sql_view(old(params)@) + x.1,
            Err(e) => conds_sql(*t, *reg, alias@, cv_seq(v@)) == Err::<(Seq<Seq<char>>, Seq<SqlV>), ErrV>(e@),
        },
    decreases v,
{
    proof {
        lemma_cv_seq(v@);
    }
    let ghost start = sql_view(params@);
    let mut parts: Vec<String> = Vec::new();
    let mut i: usize = 0;
    assert(cv_seq(v@).subrange(0, 0) =~= Seq::<CondV>::empty());
    assert(parts.deep_view() =~= Seq::<Seq<char>>::empty());
    assert(start + Seq::<SqlV>::empty() =~= start);
    while i < v.len()
        invariant
            i <= v.len(),
            cv_seq(v@).len() == v.len(),
            forall|q: int| 0 <= q < v.len() ==> #[trigger] cv_seq(v@)[q] == cv(v@[q]),
            conds_sql(*t, *reg, alias@, cv_seq(v@).subrange(0, i as int)) matches Ok(x) && x.0 == parts.deep_view() && sql_view(params@) == start + x.1,
        decreases v.len() - i,
    {
        let ghost sub = cv_seq(v@).subrange(0, i + 1);
        assert(sub.drop_last() =~= cv_seq(v@).subrange(0, i as int));
        assert(sub.last() == cv(v@[i as int]));
        let ghost before = sql_view(params@);
        let ghost pd = parts.deep_view();
        match render_cond(t, reg, alias, &v[i], params) {
            Ok(x) => {
                proof {
                    let y = cond_sql(*t, *reg, alias@, cv(v@[i as int]))->Ok_0;
                    let prev = conds_sql(*t, *reg, alias@, cv_seq(v@).subrange(0, i as int))->Ok_0;
                    assert(sql_view(params@) =~= start + (prev.1 + y.1));
                }
                parts.push(x);
                assert(parts.deep_view() =~= pd.push(x@));
            },
            Err(e) => {
                proof {
                    lemma_conds_prefix_err(*t, *reg, alias@, cv_seq(v@), i as int + 1);
                }
                return Err(e);
            },
        }
        i += 1;
    }
    assert(cv_seq(v@).subrange(0, v.len() as int) =~= cv_seq(v@));
    Ok(parts)
}

/// Renders a whole condition tree, appending its bindings to `params` in placeholder order.
pub fn render_cond(t: &Table, reg: &Registry, alias: &str, cond: &Cond, params: &mut Vec<SqlVal>) -> (r: Result<String, ApiError>)
    ensures
        match r {
            Ok(s) => cond_sql(*t, *reg, alias@, cond@) matches Ok(x) && x.0 == s@ && sql_view(final(params)@) == sql_view(old(params)@) + x.1,
            Err(e) => cond_sql(*t, *reg, alias@, cond@) == Err::<(Seq<char>, Seq<SqlV>), ErrV>(e@),
        },
    decreases cond,
{
    match cond {
        Cond::Leaf(l) => render_leaf(t, reg, alias, l, params),
        Cond::And(v) => {
            let parts = render_conds(t, reg, alias, v, params)?;
            if parts.len() == 0 {
                return Ok(owned("1 = 1"));
            }
            let body = join_strings(&parts, " AND ");
            Ok(cat3("(", body.as_str(), ")"))
        },
        Cond::Or(v) => {
            let parts = render_conds(t, reg, alias, v, params)?;
            if parts.len() == 0 {
                return Ok(owned("1 = 0"));
            }
            let body = join_strings(&parts, " OR ");
            Ok(cat3("(", body.as_str(), ")"))
        },
        Cond::Not(b) => {
            let x = render_cond(t, reg, alias, &**b, params)?;
            Ok(cat3("(NOT ", x.as_str(), ")"))
        },
    }
}

/// A text of lower-case ASCII letters and `_` reads the same lower-cased, and
/// upper-cased then lower-cased.
pub proof fn lemma_lower_name(s: Seq<char>)
    requires
        forall|i: int| 0 <= i < s.len() ==> ('a' <= #[trigger] s[i] <= 'z' || s[i] == '_'),
    ensures
        lower(s) == s,
        lower(crate::text::upper(s)) == s,
{
    assert forall|i: int| 0 <= i < s.len() implies #[trigger] crate::text::lower_char(s[i]) == s[i] by {}
    assert forall|i: int| 0 <= i < s.len() implies crate::text::lower_char(crate::text::upper_char(#[trigger] s[i])) == s[i] by {
        let c = s[i];
        if 'a' <= c && c <= 'z' {
            let u = crate::text::upper_char(c);
            assert(u as u32 == (c as u32) - 32);
            assert('A' <= u && u <= 'Z');
            assert(crate::text::lower_char(u) as u32 == (u as u32) + 32);
        }
    }
    assert(lower(s) =~= s);
    assert(lower(crate::text::upper(s)) =~= s);
}

/// Every operator is read back from its name, in any case of ASCII letters:
/// `Op::from_suffix(op.name())` and `Op::from_suffix` of the upper-cased name
/// are both `op` (`from_suffix(s)` gives `op_of_lower(lower(s@))` and `name()`
/// gives `op_name`, by their contracts; `to_ascii_uppercase` is `upper`).
pub proof fn law_operator_names_read_back(op: Op)
    ensures
        op_of_lower(lower(op_name(op))) == Some(op),
        op_of_lower(lower(crate::text::upper(op_name(op)))) == Some(op),
{
    reveal_strlit("eq");
    reveal_strlit("ne");
    reveal_strlit("not");
    reveal_strlit("gt");
    reveal_strlit("gte");
    reveal_strlit("ge");
    reveal_strlit("lt");
    reveal_strlit("lte");
    reveal_strlit("le");
    reveal_strlit("like");
    reveal_strlit("nlike");
    reveal_strlit("prefix");
    reveal_strlit("suffix");
    reveal_strlit("in");
    reveal_strlit("nin");
    reveal_strlit("between");
    reveal_strlit("null");
    reveal_strlit("isnull");
    reveal_strlit("notnull");
    reveal_strlit("isnotnull");
    reveal_strlit("json_contains");
    reveal_strlit("json_has_all");
    reveal_strlit("json_eq");
    reveal_strlit("json_like");
    reveal_strlit("json_len_gte");
    let n = op_name(op);
    assert forall|i: int| 0 <= i < n.len() implies ('a' <= #[trigger] n[i] <= 'z' || n[i] == '_') by {}
    lemma_lower_name(n);
    assert(op_of_lower(n) == Some(op)) by {
        // naming the first characters lets the names be told apart
        let (a, b, c, d, e, f) = (n[0], n[1], n[2], n[3], n[4], n[5]);
        let g = n[6];
        let h = n.len();
    }
}

/// The JSON operators are exactly those whose name starts with `json_`:
/// `op.is_json()` is `op.name().starts_with("json_")` (`is_json` gives
/// `is_json_op` and `name` gives `op_name`, by their contracts).
pub proof fn law_json_operators_are_named_json(op: Op)
    ensures
        is_json_op(op) == crate::text::starts_with(op_name(op), "json_"@),
{
    reveal_strlit("eq");
    reveal_strlit("ne");
    reveal_strlit("gt");
    reveal_strlit("gte");
    reveal_strlit("lt");
    reveal_strlit("lte");
    reveal_strlit("like");
    reveal_strlit("nlike");
    reveal_strlit("prefix");
    reveal_strlit("suffix");
    reveal_strlit("in");
    reveal_strlit("nin");
    reveal_strlit("between");
    reveal_strlit("null");
    reveal_strlit("notnull");
    reveal_strlit("json_contains");
    reveal_strlit("json_has_all");
    reveal_strlit("json_eq");
    reveal_strlit("json_like");
    reveal_strlit("json_len_gte");
    reveal_strlit("json_");
    match op {
        Op::Eq => {},
        Op::Ne => {},
        Op::Gt => {},
        Op::Gte => {},
        Op::Lt => {},
        Op::Lte => {},
        Op::Like => {},
        Op::NLike => {
            assert("nlike"@.subrange(0, 5)[0] != "json_"@[0]);
        },
        Op::Prefix => {
            assert("prefix"@.subrange(0, 5)[0] != "json_"@[0]);
        },
        Op::Suffix => {
            assert("suffix"@.subrange(0, 5)[0] != "json_"@[0]);
        },
        Op::In => {},
        Op::Nin => {},
        Op::Between => {
            assert("between"@.subrange(0, 5)[0] != "json_"@[0]);
        },
        Op::IsNull => {},
        Op::IsNotNull => {
            assert("notnull"@.subrange(0, 5)[0] != "json_"@[0]);
        },
        Op::JsonContains => {
            assert("json_contains"@.subrange(0, 5) =~= "json_"@);
        },
        Op::JsonHasAll => {
            assert("json_has_all"@.subrange(0, 5) =~= "json_"@);
        },
        Op::JsonEq => {
            assert("json_eq"@.subrange(0, 5) =~= "json_"@);
        },
        Op::JsonLike => {
            assert("json_like"@.subrange(0, 5) =~= "json_"@);
        },
        Op::JsonLenGte => {
            assert("json_len_gte"@.subrange(0, 5) =~= "json_"@);
        },
    }
}

} // verus!
