//! The SQL builder: a `QuerySpec` becomes parameterised SQL, its parameters and the
//! plan of the output columns.
//!
//! Table, column and function names all come from the whitelist; every user value
//! goes through a `?` placeholder.

use crate::error::{collect, e_param, e_unknown_column, e_unknown_table, lemma_collect_all, lemma_collect_prefix_err, lemma_collect_step, ApiError, ErrV};
use crate::json::{lemma_member_at_first, lemma_obj_get_first, member_at, obj_get, Json, JsonV};
use crate::query::ast::{
    combine, cond_sql, cv, cv_seq, lemma_cv_seq_push, qi, qi2, quote_ident, quote_pair, render_cond, Cond, CondV, Leaf, LeafV, Op,
};
use crate::query::parse::{
    aggs_view, limit_of, offset_of, opt_cond, orders_view, Agg, AggV, OrderBy, OrderByV, QuerySpec, QuerySpecV,
};
use crate::schema::{belongs_names, col_names, first_belongs, searchable, table_names, BelongsTo, Column, Registry, Table};
use crate::text::{cat, cat3, chars_of, has_text, occurs_at, contains_str, copy_string, dedup, find_char, first_index, join, join_strings, owned, slice_chars, str_eq, string_of};
use crate::value::{sql_view, SqlV, SqlVal};
use vstd::prelude::*;

verus! {

/// Where a selected column's value goes in the result row.
#[derive(Debug, Clone, PartialEq)]
pub enum OutputCol {
    Base(String),
    Joined { key: String, column: String },
    Agg { alias: String },
}

pub enum OutputColV {
    Base(Seq<char>),
    Joined { key: Seq<char>, column: Seq<char> },
    Agg { alias: Seq<char> },
}

impl View for OutputCol {
    type V = OutputColV;

    open spec fn view(&self) -> OutputColV {
        match self {
            OutputCol::Base(n) => OutputColV::Base(n@),
            OutputCol::Joined { key, column } => OutputColV::Joined { key: key@, column: column@ },
            OutputCol::Agg { alias } => OutputColV::Agg { alias: alias@ },
        }
    }
}

pub open spec fn outs_view(s: Seq<OutputCol>) -> Seq<OutputColV> {
    s.map_values(|o: OutputCol| o@)
}

/// A SELECT statement, its parameters in placeholder order, and its output columns.
#[derive(Debug, Clone)]
pub struct SelectPlan {
    pub sql: String,
    pub params: Vec<SqlVal>,
    pub outputs: Vec<OutputCol>,
}

/// `s` without any `'`.
pub open spec fn drop_quotes(s: Seq<char>) -> Seq<char>
    decreases s.len(),
{
    if s.len() == 0 {
        Seq::empty()
    } else if s.last() == '\'' {
        drop_quotes(s.drop_last())
    } else {
        drop_quotes(s.drop_last()).push(s.last())
    }
}

fn drop_quotes_exec(v: &Vec<char>) -> (r: String)
    ensures
        r@ == drop_quotes(v@),
{
    let mut out: Vec<char> = Vec::new();
    let mut i: usize = 0;
    while i < v.len()
        invariant
            i <= v.len(),
            out@ == drop_quotes(v@.subrange(0, i as int)),
        decreases v.len() - i,
    {
        assert(v@.subrange(0, i + 1).drop_last() =~= v@.subrange(0, i as int));
        if v[i] != '\'' {
            out.push(v[i]);
        }
        i += 1;
    }
    assert(v@.subrange(0, v.len() as int) =~= v@);
    string_of(out.as_slice())
}

/// The SQL expression of a selected, grouped or sorted column: `col`, `related.col`,
/// or `json_col.key` read with `json_extract`.
pub open spec fn expr_spec(t: Table, reg: Registry, c: Seq<char>) -> Result<Seq<char>, ErrV> {
    match first_index(c, '.') {
        Some(i) => {
            let rel = c.subrange(0, i);
            let col = c.subrange(i + 1, c.len() as int);
            match reg.lookup(rel) {
                None => Err(e_unknown_table(rel, table_names(reg.all()))),
                Some(rt) => match rt.col(col) {
                    None => Err(e_unknown_column(rt.name@, col, col_names(rt.columns@))),
                    Some(_) => if first_belongs(t.belongs_to@, rel) is Some {
                        Ok(qi2(rel, col))
                    } else if t.col(rel) is Some && t.col(rel)->0.json {
                        Ok("json_extract("@ + qi2(t.name@, rel) + ", '$."@ + drop_quotes(col) + "')"@)
                    } else {
                        Err(e_unknown_column(t.name@, c, col_names(t.columns@)))
                    },
                },
            }
        },
        None => match t.col(c) {
            None => Err(e_unknown_column(t.name@, c, col_names(t.columns@))),
            Some(_) => Ok(qi2(t.name@, c)),
        },
    }
}

pub fn expr_of(t: &Table, reg: &Registry, c: &str) -> (r: Result<String, ApiError>)
    ensures
        match r {
            Ok(s) => expr_spec(*t, *reg, c@) == Ok::<Seq<char>, ErrV>(s@),
            Err(e) => expr_spec(*t, *reg, c@) == Err::<Seq<char>, ErrV>(e@),
        },
{
    let cc = chars_of(c);
    match find_char(&cc, '.') {
        Some(i) => {
            let relc = slice_chars(&cc, 0, i);
            let colc = slice_chars(&cc, i + 1, cc.len());
            let rel = string_of(relc.as_slice());
            let col = string_of(colc.as_slice());
            let rt = reg.table(rel.as_str())?;
            rt.require_column(col.as_str())?;
            if t.belongs(rel.as_str()).is_some() {
                return Ok(quote_pair(rel.as_str(), col.as_str()));
            }
            if let Some(base) = t.column(rel.as_str()) {
                if base.json {
                    let q = quote_pair(t.name.as_str(), rel.as_str());
                    let d = drop_quotes_exec(&colc);
                    let a = cat3("json_extract(", q.as_str(), ", '$.");
                    return Ok(cat3(a.as_str(), d.as_str(), "')"));
                }
            }
            Err(ApiError::unknown_column(t.name.as_str(), c, t.column_names()))
        },
        None => {
            t.require_column(c)?;
            Ok(quote_pair(t.name.as_str(), c))
        },
    }
}

// ---------------------------------------------------------------------------
// Related tables a condition reads
// ---------------------------------------------------------------------------

pub open spec fn add_unique(acc: Seq<Seq<char>>, x: Seq<char>) -> Seq<Seq<char>> {
    if acc.contains(x) {
        acc
    } else {
        acc.push(x)
    }
}

/// The part before the first `.` of every leaf column of `c`, added to `acc` in
/// reading order, each once.
pub open spec fn related_of(c: CondV, acc: Seq<Seq<char>>) -> Seq<Seq<char>>
    decreases c,
{
    match c {
        CondV::And(v) => related_all(v, acc),
        CondV::Or(v) => related_all(v, acc),
        CondV::Not(b) => related_of(*b, acc),
        CondV::Leaf(l) => match first_index(l.column, '.') {
            Some(i) => add_unique(acc, l.column.subrange(0, i)),
            None => acc,
        },
    }
}

pub open spec fn related_all(v: Seq<CondV>, acc: Seq<Seq<char>>) -> Seq<Seq<char>>
    decreases v,
{
    if v.len() == 0 {
        acc
    } else {
        related_of(v.last(), related_all(v.drop_last(), acc))
    }
}

fn add_unique_exec(out: &mut Vec<String>, x: String)
    ensures
        final(out).deep_view() == add_unique(old(out).deep_view(), x@),
{
    if !contains_str(out, x.as_str()) {
        let ghost before = out.deep_view();
        out.push(x);
        assert(out.deep_view() =~= before.push(x@));
    }
}

fn walk(c: &Cond, out: &mut Vec<String>)
    ensures
        final(out).deep_view() == related_of(c@, old(out).deep_view()),
    decreases c,
{
    match c {
        Cond::And(v) => walk_all(v, out),
        Cond::Or(v) => walk_all(v, out),
        Cond::Not(b) => walk(&**b, out),
        Cond::Leaf(l) => {
            let cc = chars_of(l.column.as_str());
            match find_char(&cc, '.') {
                Some(i) => {
                    let h = slice_chars(&cc, 0, i);
                    add_unique_exec(out, string_of(h.as_slice()));
                },
                None => {},
            }
        },
    }
}

fn walk_all(v: &Vec<Cond>, out: &mut Vec<String>)
    ensures
        final(out).deep_view() == related_all(cv_seq(v@), old(out).deep_view()),
    decreases v,
{
    proof {
        crate::query::ast::lemma_cv_seq(v@);
    }
    let ghost start = out.deep_view();
    let mut i: usize = 0;
    assert(cv_seq(v@).subrange(0, 0) =~= Seq::<CondV>::empty());
    while i < v.len()
        invariant
            i <= v.len(),
            cv_seq(v@).len() == v.len(),
            forall|q: int| 0 <= q < v.len() ==> #[trigger] cv_seq(v@)[q] == cv(v@[q]),
            out.deep_view() == related_all(cv_seq(v@).subrange(0, i as int), start),
        decreases v.len() - i,
    {
        let ghost sub = cv_seq(v@).subrange(0, i + 1);
        assert(sub.drop_last() =~= cv_seq(v@).subrange(0, i as int));
        assert(sub.last() == cv(v@[i as int]));
        walk(&v[i], out);
        i += 1;
    }
    assert(cv_seq(v@).subrange(0, v.len() as int) =~= cv_seq(v@));
}

pub open spec fn related_opt(c: Option<CondV>, acc: Seq<Seq<char>>) -> Seq<Seq<char>> {
    match c {
        Some(x) => related_of(x, acc),
        None => acc,
    }
}

/// Adds to `out` the tables a condition filters on through `related.col` names.
pub fn collect_related(cond: &Option<Cond>, out: &mut Vec<String>)
    ensures
        final(out).deep_view() == related_opt(opt_cond(*cond), old(out).deep_view()),
{
    match cond {
        Some(c) => walk(c, out),
        None => {},
    }
}

// ---------------------------------------------------------------------------
// FROM and WHERE
// ---------------------------------------------------------------------------

/// The tables named by `expand`, each once, or the first one that cannot be expanded.
pub open spec fn expand_needs(t: Table, ex: Seq<Seq<char>>) -> Result<Seq<Seq<char>>, ErrV>
    decreases ex.len(),
{
    if ex.len() == 0 {
        Ok(Seq::empty())
    } else {
        match expand_needs(t, ex.drop_last()) {
            Err(e) => Err(e),
            Ok(acc) => {
                let e = ex.last();
                let allowed = dedup(belongs_names(t.belongs_to@));
                if !allowed.contains(e) {
                    Err(e_param("表 "@ + t.name@ + " 不支持 expand="@ + e + "，可用: "@ + join(allowed, ", "@)))
                } else {
                    Ok(add_unique(acc, e))
                }
            },
        }
    }
}

/// Each needed name is a `belongs_to` table or a JSON column of `t`.
pub open spec fn need_ok(t: Table, n: Seq<char>) -> Result<(), ErrV> {
    if first_belongs(t.belongs_to@, n) is Some || (t.col(n) is Some && t.col(n)->0.json) {
        Ok(())
    } else {
        Err(e_unknown_column(t.name@, n, col_names(t.columns@)))
    }
}

pub open spec fn join_text(t: Table, b: BelongsTo) -> Seq<char> {
    " LEFT JOIN "@ + qi(b.table@) + " ON "@ + qi2(t.name@, b.column@) + " = "@ + qi2(b.table@, b.ref_column@)
}

/// The LEFT JOINs of the needed `belongs_to` tables, in order (JSON columns join nothing).
pub open spec fn joins_spec(t: Table, needs: Seq<Seq<char>>) -> Result<Seq<char>, ErrV>
    decreases needs.len(),
{
    if needs.len() == 0 {
        Ok(Seq::empty())
    } else {
        match joins_spec(t, needs.drop_last()) {
            Err(e) => Err(e),
            Ok(acc) => match first_belongs(t.belongs_to@, needs.last()) {
                None => Ok(acc),
                Some(b) => if b.table@ == t.name@ {
                    Err(e_param("表 "@ + t.name@ + " 的自关联（"@ + b.column@ + "）暂不支持 expand/关联筛选"@))
                } else {
                    Ok(acc + join_text(t, b))
                },
            },
        }
    }
}

/// Names of the JSON columns of a table, in order.
pub open spec fn json_cols(cols: Seq<Column>) -> Seq<Seq<char>>
    decreases cols.len(),
{
    if cols.len() == 0 {
        Seq::empty()
    } else if cols.last().json {
        json_cols(cols.drop_last()).push(cols.last().name@)
    } else {
        json_cols(cols.drop_last())
    }
}

/// The keyword search `q`: a `like` test on every searchable and every JSON column.
pub open spec fn search_leaves(t: Table, q: Seq<char>) -> Seq<CondV> {
    (searchable(t.columns@) + json_cols(t.columns@)).map_values(
        |c: Seq<char>| CondV::Leaf(LeafV { column: c, op: Op::Like, values: seq![JsonV::Str(q)] }),
    )
}

/// The conditions of a request: its filter, then its keyword search.
pub open spec fn where_conds(t: Table, s: QuerySpecV) -> Seq<CondV> {
    crate::query::parse::opt_seq(s.cond) + match s.q {
        Some(q) => crate::query::parse::opt_seq(combine(search_leaves(t, q), true)),
        None => Seq::empty(),
    }
}

/// FROM text, WHERE text and parameters of a request.
pub open spec fn parts_spec(t: Table, reg: Registry, s: QuerySpecV) -> Result<(Seq<char>, Seq<char>, Seq<SqlV>), ErrV> {
    match expand_needs(t, s.expand) {
        Err(e) => Err(e),
        Ok(n1) => {
            let needs = related_opt(s.cond, n1);
            match collect(needs.map_values(|n: Seq<char>| need_ok(t, n))) {
                Err(e) => Err(e),
                Ok(_) => match joins_spec(t, needs) {
                    Err(e) => Err(e),
                    Ok(j) => {
                        let from = qi(t.name@) + j;
                        match combine(where_conds(t, s), false) {
                            None => Ok((from, "1 = 1"@, Seq::empty())),
                            Some(c) => match cond_sql(t, reg, t.name@, c) {
                                Err(e) => Err(e),
                                Ok((w, ps)) => Ok((from, w, ps)),
                            },
                        }
                    },
                },
            }
        },
    }
}

struct Parts {
    from: String,
    where_sql: String,
    params: Vec<SqlVal>,
}

fn expand_check(t: &Table, ex: &Vec<String>) -> (r: Result<Vec<String>, ApiError>)
    ensures
        match r {
            Ok(v) => expand_needs(*t, ex.deep_view()) == Ok::<Seq<Seq<char>>, ErrV>(v.deep_view()),
            Err(e) => expand_needs(*t, ex.deep_view()) == Err::<Seq<Seq<char>>, ErrV>(e@),
        },
{
    let allowed = t.expandable();
    let mut needs: Vec<String> = Vec::new();
    let mut i: usize = 0;
    assert(ex.deep_view().subrange(0, 0) =~= Seq::<Seq<char>>::empty());
    assert(needs.deep_view() =~= Seq::<Seq<char>>::empty());
    while i < ex.len()
        invariant
            i <= ex.len(),
            allowed.deep_view() == dedup(belongs_names(t.belongs_to@)),
            expand_needs(*t, ex.deep_view().subrange(0, i as int)) == Ok::<Seq<Seq<char>>, ErrV>(needs.deep_view()),
        decreases ex.len() - i,
    {
        let ghost sub = ex.deep_view().subrange(0, i + 1);
        assert(sub.drop_last() =~= ex.deep_view().subrange(0, i as int));
        assert(sub.last() == ex@[i as int]@);
        if !contains_str(&allowed, ex[i].as_str()) {
            let j = join_strings(&allowed, ", ");
            let a = cat3("表 ", t.name.as_str(), " 不支持 expand=");
            let b = cat3(a.as_str(), ex[i].as_str(), "，可用: ");
            let m = cat(b.as_str(), j.as_str());
            proof {
                lemma_expand_prefix_err(*t, ex.deep_view(), i + 1);
            }
            return Err(ApiError::param(m.as_str()));
        }
        add_unique_exec(&mut needs, copy_string(&ex[i]));
        i += 1;
    }
    assert(ex.deep_view().subrange(0, ex.len() as int) =~= ex.deep_view());
    Ok(needs)
}

proof fn lemma_expand_prefix_err(t: Table, ex: Seq<Seq<char>>, k: int)
    requires
        0 <= k <= ex.len(),
        expand_needs(t, ex.subrange(0, k)) is Err,
    ensures
        expand_needs(t, ex) == expand_needs(t, ex.subrange(0, k)),
    decreases ex.len() - k,
{
    if k < ex.len() {
        assert(ex.subrange(0, k + 1).drop_last() =~= ex.subrange(0, k));
        lemma_expand_prefix_err(t, ex, k + 1);
    } else {
        assert(ex.subrange(0, k) =~= ex);
    }
}

proof fn lemma_joins_prefix_err(t: Table, n: Seq<Seq<char>>, k: int)
    requires
        0 <= k <= n.len(),
        joins_spec(t, n.subrange(0, k)) is Err,
    ensures
        joins_spec(t, n) == joins_spec(t, n.subrange(0, k)),
    decreases n.len() - k,
{
    if k < n.len() {
        assert(n.subrange(0, k + 1).drop_last() =~= n.subrange(0, k));
        lemma_joins_prefix_err(t, n, k + 1);
    } else {
        assert(n.subrange(0, k) =~= n);
    }
}

fn search_conds(t: &Table, q: &String) -> (r: Vec<Cond>)
    ensures
        cv_seq(r@) == search_leaves(*t, q@),
{
    let s = t.searchable_columns();
    let mut names: Vec<String> = crate::text::copy_strings(&s);
    let mut k: usize = 0;
    let ghost base = names.deep_view();
    assert(t.columns@.subrange(0, 0) =~= Seq::<Column>::empty());
    assert(base + json_cols(t.columns@.subrange(0, 0)) =~= base);
    while k < t.columns.len()
        invariant
            k <= t.columns.len(),
            base == searchable(t.columns@),
            names.deep_view() == base + json_cols(t.columns@.subrange(0, k as int)),
        decreases t.columns.len() - k,
    {
        let ghost sub = t.columns@.subrange(0, k + 1);
        assert(sub.drop_last() =~= t.columns@.subrange(0, k as int));
        if t.columns[k].json {
            let ghost before = names.deep_view();
            names.push(copy_string(&t.columns[k].name));
            assert(names.deep_view() =~= before.push(t.columns@[k as int].name@));
        }
        k += 1;
    }
    assert(t.columns@.subrange(0, t.columns.len() as int) =~= t.columns@);
    let mut out: Vec<Cond> = Vec::new();
    let mut i: usize = 0;
    let ghost f = |c: Seq<char>| CondV::Leaf(LeafV { column: c, op: Op::Like, values: seq![JsonV::Str(q@)] });
    assert(cv_seq(out@) =~= Seq::<CondV>::empty());
    while i < names.len()
        invariant
            i <= names.len(),
            f == (|c: Seq<char>| CondV::Leaf(LeafV { column: c, op: Op::Like, values: seq![JsonV::Str(q@)] })),
            cv_seq(out@) == names.deep_view().subrange(0, i as int).map_values(f),
        decreases names.len() - i,
    {
        let mut vals: Vec<Json> = Vec::new();
        vals.push(Json::Str(copy_string(q)));
        proof {
            crate::json::lemma_jv_seq_push(Seq::empty(), vals@[0]);
            assert(Seq::<Json>::empty().push(vals@[0]) =~= vals@);
        }
        let c = Cond::Leaf(Leaf::new(copy_string(&names[i]), Op::Like, vals));
        assert(c@ == f(names.deep_view()[i as int]));
        proof {
            lemma_cv_seq_push(out@, c);
        }
        out.push(c);
        assert(names.deep_view().subrange(0, i + 1).map_values(f) =~= names.deep_view().subrange(0, i as int).map_values(f).push(f(names.deep_view()[i as int])));
        i += 1;
    }
    assert(names.deep_view().subrange(0, names.len() as int) =~= names.deep_view());
    out
}

fn build_parts(t: &Table, reg: &Registry, spec: &QuerySpec) -> (r: Result<Parts, ApiError>)
    ensures
        match r {
            Ok(p) => parts_spec(*t, *reg, spec@) == Ok::<(Seq<char>, Seq<char>, Seq<SqlV>), ErrV>((p.from@, p.where_sql@, sql_view(p.params@))),
            Err(e) => parts_spec(*t, *reg, spec@) == Err::<(Seq<char>, Seq<char>, Seq<SqlV>), ErrV>(e@),
        },
{
    let mut needs = expand_check(t, &spec.expand)?;
    collect_related(&spec.cond, &mut needs);
    let ghost nv = needs.deep_view();
    let ghost rs = nv.map_values(|n: Seq<char>| need_ok(*t, n));
    let mut i: usize = 0;
    assert(rs.subrange(0, 0) =~= Seq::<Result<(), ErrV>>::empty());
    while i < needs.len()
        invariant
            i <= needs.len(),
            nv == needs.deep_view(),
            rs == nv.map_values(|n: Seq<char>| need_ok(*t, n)),
            collect(rs.subrange(0, i as int)) is Ok,
            expand_needs(*t, spec@.expand) matches Ok(n1) && nv == related_opt(spec@.cond, n1),
        decreases needs.len() - i,
    {
        proof {
            lemma_collect_step(rs, i as int);
        }
        let n = needs[i].as_str();
        let ok = t.belongs(n).is_some() || match t.column(n) {
            Some(c) => c.json,
            None => false,
        };
        if !ok {
            proof {
                lemma_collect_prefix_err(rs, i + 1);
            }
            let cols = t.column_names();
            return Err(ApiError::unknown_column(t.name.as_str(), n, cols));
        }
        i += 1;
    }
    proof {
        lemma_collect_all(rs);
    }
    let mut from = quote_ident(t.name.as_str());
    let ghost head = from@;
    let mut k: usize = 0;
    assert(nv.subrange(0, 0) =~= Seq::<Seq<char>>::empty());
    assert(head + Seq::<char>::empty() =~= head);
    while k < needs.len()
        invariant
            k <= needs.len(),
            nv == needs.deep_view(),
            head == qi(t.name@),
            joins_spec(*t, nv.subrange(0, k as int)) matches Ok(j) && from@ == head + j,
            expand_needs(*t, spec@.expand) matches Ok(n1) && nv == related_opt(spec@.cond, n1),
            collect(nv.map_values(|n: Seq<char>| need_ok(*t, n))) is Ok,
        decreases needs.len() - k,
    {
        let ghost sub = nv.subrange(0, k + 1);
        assert(sub.drop_last() =~= nv.subrange(0, k as int));
        assert(sub.last() == needs@[k as int]@);
        match t.belongs(needs[k].as_str()) {
            None => {},
            Some(b) => {
                if str_eq(b.table.as_str(), t.name.as_str()) {
                    let a = cat3("表 ", t.name.as_str(), " 的自关联（");
                    let m = cat3(a.as_str(), b.column.as_str(), "）暂不支持 expand/关联筛选");
                    proof {
                        lemma_joins_prefix_err(*t, nv, k + 1);
                    }
                    return Err(ApiError::param(m.as_str()));
                }
                let bt = quote_ident(b.table.as_str());
                let l = quote_pair(t.name.as_str(), b.column.as_str());
                let rgt = quote_pair(b.table.as_str(), b.ref_column.as_str());
                let p1 = cat3(" LEFT JOIN ", bt.as_str(), " ON ");
                let p2 = cat3(p1.as_str(), l.as_str(), " = ");
                let piece = cat(p2.as_str(), rgt.as_str());
                let ghost j = joins_spec(*t, nv.subrange(0, k as int))->Ok_0;
                assert(piece@ == join_text(*t, *b));
                from = cat(from.as_str(), piece.as_str());
                assert(from@ =~= head + (j + join_text(*t, *b)));
            },
        }
        k += 1;
    }
    assert(nv.subrange(0, needs.len() as int) =~= nv);
    let mut conds: Vec<Cond> = Vec::new();
    match &spec.cond {
        Some(c) => {
            let d = c.duplicate();
            proof {
                lemma_cv_seq_push(conds@, d);
            }
            conds.push(d);
        },
        None => {},
    }
    assert(cv_seq(conds@) =~= crate::query::parse::opt_seq(spec@.cond));
    match &spec.q {
        Some(q) => {
            let ls = search_conds(t, q);
            match Cond::or(ls) {
                Some(c) => {
                    proof {
                        lemma_cv_seq_push(conds@, c);
                    }
                    conds.push(c);
                },
                None => {},
            }
        },
        None => {},
    }
    assert(cv_seq(conds@) =~= where_conds(*t, spec@));
    let mut params: Vec<SqlVal> = Vec::new();
    let where_sql = match Cond::and(conds) {
        Some(c) => {
            let w = render_cond(t, reg, t.name.as_str(), &c, &mut params)?;
            assert(sql_view(params@) =~= Seq::<SqlV>::empty() + cond_sql(*t, *reg, t.name@, c@)->Ok_0.1);
            w
        },
        None => {
            assert(sql_view(params@) =~= Seq::<SqlV>::empty());
            owned("1 = 1")
        },
    };
    Ok(Parts { from, where_sql, params })
}


// ---------------------------------------------------------------------------
// SELECT list, GROUP BY, ORDER BY
// ---------------------------------------------------------------------------

pub open spec fn agg_sql_spec(t: Table, reg: Registry, a: AggV) -> Result<Seq<char>, ErrV> {
    if a.func == "count"@ && a.column is None {
        Ok("count(*)"@)
    } else {
        match a.column {
            Some(c) => match expr_spec(t, reg, c) {
                Err(e) => Err(e),
                Ok(x) => if a.func == "count_distinct"@ {
                    Ok("count(DISTINCT "@ + x + ")"@)
                } else {
                    Ok(a.func + "("@ + x + ")"@)
                },
            },
            None => Err(e_param("聚合函数 "@ + a.func + " 必须指定列（只有 count 支持 *）"@)),
        }
    }
}

fn agg_sql(t: &Table, reg: &Registry, a: &Agg) -> (r: Result<String, ApiError>)
    ensures
        match r {
            Ok(x) => agg_sql_spec(*t, *reg, a@) == Ok::<Seq<char>, ErrV>(x@),
            Err(e) => agg_sql_spec(*t, *reg, a@) == Err::<Seq<char>, ErrV>(e@),
        },
{
    if str_eq(a.func.as_str(), "count") && a.column.is_none() {
        return Ok(owned("count(*)"));
    }
    match &a.column {
        Some(c) => {
            let x = expr_of(t, reg, c.as_str())?;
            if str_eq(a.func.as_str(), "count_distinct") {
                Ok(cat3("count(DISTINCT ", x.as_str(), ")"))
            } else {
                let h = cat(a.func.as_str(), "(");
                Ok(cat3(h.as_str(), x.as_str(), ")"))
            }
        },
        None => {
            let m = cat3("聚合函数 ", a.func.as_str(), " 必须指定列（只有 count 支持 *）");
            Err(ApiError::param(m.as_str()))
        },
    }
}

/// The SQL pieces of one sort column (a NULLs-last test first when asked for).
pub open spec fn order_piece(t: Table, reg: Registry, o: OrderByV) -> Result<Seq<Seq<char>>, ErrV> {
    match expr_spec(t, reg, o.column) {
        Err(e) => Err(e),
        Ok(x) => Ok(
            if o.nulls_last {
                seq!["("@ + x + " IS NULL) ASC"@, x + " "@ + o.direction]
            } else {
                seq![x + " "@ + o.direction]
            },
        ),
    }
}

pub open spec fn order_sql_spec(t: Table, reg: Registry, ob: Seq<OrderByV>) -> Result<Seq<char>, ErrV> {
    match collect(ob.map_values(|o: OrderByV| order_piece(t, reg, o))) {
        Err(e) => Err(e),
        Ok(ps) => Ok(join(crate::error::concat_all(ps), ", "@)),
    }
}

fn order_sql(t: &Table, reg: &Registry, ob: &Vec<OrderBy>) -> (r: Result<String, ApiError>)
    ensures
        match r {
            Ok(x) => order_sql_spec(*t, *reg, orders_view(ob@)) == Ok::<Seq<char>, ErrV>(x@),
            Err(e) => order_sql_spec(*t, *reg, orders_view(ob@)) == Err::<Seq<char>, ErrV>(e@),
        },
{
    let ghost rs = orders_view(ob@).map_values(|o: OrderByV| order_piece(*t, *reg, o));
    let mut parts: Vec<String> = Vec::new();
    let mut i: usize = 0;
    assert(rs.subrange(0, 0) =~= Seq::<Result<Seq<Seq<char>>, ErrV>>::empty());
    assert(parts.deep_view() =~= crate::error::concat_all(Seq::<Seq<Seq<char>>>::empty()));
    while i < ob.len()
        invariant
            i <= ob.len(),
            rs == orders_view(ob@).map_values(|o: OrderByV| order_piece(*t, *reg, o)),
            collect(rs.subrange(0, i as int)) matches Ok(ps) && parts.deep_view() == crate::error::concat_all(ps),
        decreases ob.len() - i,
    {
        proof {
            lemma_collect_step(rs, i as int);
        }
        let ghost ps = collect(rs.subrange(0, i as int))->Ok_0;
        let o = &ob[i];
        let x = match expr_of(t, reg, o.column.as_str()) {
            Ok(x) => x,
            Err(e) => {
                proof {
                    lemma_collect_prefix_err(rs, i + 1);
                }
                return Err(e);
            },
        };
        let ghost before = parts.deep_view();
        if o.nulls_last {
            parts.push(cat3("(", x.as_str(), " IS NULL) ASC"));
        }
        parts.push(cat3(x.as_str(), " ", o.direction.as_str()));
        proof {
            let piece = order_piece(*t, *reg, o@)->Ok_0;
            assert(parts.deep_view() =~= before + piece);
            assert(ps.push(piece).drop_last() =~= ps);
        }
        i += 1;
    }
    proof {
        lemma_collect_all(rs);
    }
    Ok(join_strings(&parts, ", "))
}

/// One selected column of a plain (not aggregated) request.
pub open spec fn col_sel(t: Table, reg: Registry, c: Seq<char>) -> Result<(Seq<char>, OutputColV), ErrV> {
    match first_index(c, '.') {
        Some(i) if first_belongs(t.belongs_to@, c.subrange(0, i)) is Some => {
            let rel = c.subrange(0, i);
            let col = c.subrange(i + 1, c.len() as int);
            Ok((qi2(rel, col) + " AS "@ + qi(rel + "__"@ + col), OutputColV::Joined { key: rel, column: col }))
        },
        _ => match expr_spec(t, reg, c) {
            Err(e) => Err(e),
            Ok(x) => Ok((x, OutputColV::Base(c))),
        },
    }
}

/// Every column of an expanded table, under `table__column`.
pub open spec fn expand_sel(reg: Registry, e: Seq<char>) -> Result<Seq<(Seq<char>, OutputColV)>, ErrV> {
    match reg.lookup(e) {
        None => Err(e_unknown_table(e, table_names(reg.all()))),
        Some(rt) => Ok(
            rt.columns@.map_values(
                |c: Column| (qi2(e, c.name@) + " AS "@ + qi(e + "__"@ + c.name@), OutputColV::Joined { key: e, column: c.name@ }),
            ),
        ),
    }
}

/// The select list of a plain request: the chosen columns (all, when none is chosen),
/// then every column of each expanded table.
pub open spec fn plain_select(t: Table, reg: Registry, s: QuerySpecV) -> Result<Seq<(Seq<char>, OutputColV)>, ErrV> {
    let cols = if s.select.len() == 0 {
        col_names(t.columns@)
    } else {
        s.select
    };
    match collect(cols.map_values(|c: Seq<char>| col_sel(t, reg, c))) {
        Err(e) => Err(e),
        Ok(a) => match collect(s.expand.map_values(|e: Seq<char>| expand_sel(reg, e))) {
            Err(e) => Err(e),
            Ok(b) => Ok(a + crate::error::concat_all(b)),
        },
    }
}

pub open spec fn group_sel(t: Table, reg: Registry, g: Seq<char>) -> Result<(Seq<char>, OutputColV), ErrV> {
    match expr_spec(t, reg, g) {
        Err(e) => Err(e),
        Ok(x) => Ok((x, OutputColV::Base(g))),
    }
}

pub open spec fn agg_sel(t: Table, reg: Registry, a: AggV) -> Result<(Seq<char>, OutputColV), ErrV> {
    match agg_sql_spec(t, reg, a) {
        Err(e) => Err(e),
        Ok(x) => Ok((x + " AS "@ + qi(a.alias), OutputColV::Agg { alias: a.alias })),
    }
}

/// The select list of an aggregated request: the grouped columns, then the aggregates.
pub open spec fn agg_select(t: Table, reg: Registry, s: QuerySpecV) -> Result<Seq<(Seq<char>, OutputColV)>, ErrV> {
    match collect(s.group_by.map_values(|g: Seq<char>| group_sel(t, reg, g))) {
        Err(e) => Err(e),
        Ok(a) => match collect(s.aggregates.map_values(|x: AggV| agg_sel(t, reg, x))) {
            Err(e) => Err(e),
            Ok(b) => Ok(a + b),
        },
    }
}

pub open spec fn aggregated(s: QuerySpecV) -> bool {
    s.aggregates.len() > 0 || s.group_by.len() > 0
}

/// Paging applies unless an aggregated request asks for no page.
pub open spec fn paged(s: QuerySpecV) -> bool {
    !aggregated(s) || s.page is Some || s.page_size is Some || s.limit is Some
}

pub open spec fn group_clause(t: Table, reg: Registry, g: Seq<Seq<char>>) -> Result<Seq<char>, ErrV> {
    if g.len() == 0 {
        Ok(Seq::empty())
    } else {
        match collect(g.map_values(|x: Seq<char>| expr_spec(t, reg, x))) {
            Err(e) => Err(e),
            Ok(xs) => Ok(" GROUP BY "@ + join(xs, ", "@)),
        }
    }
}

pub open spec fn order_clause(t: Table, reg: Registry, s: QuerySpecV) -> Result<Seq<char>, ErrV> {
    if s.order_by.len() > 0 {
        match order_sql_spec(t, reg, s.order_by) {
            Err(e) => Err(e),
            Ok(x) => Ok(" ORDER BY "@ + x),
        }
    } else if aggregated(s) {
        Ok(" ORDER BY 1"@)
    } else {
        Ok(" ORDER BY "@ + qi2(t.name@, "id"@) + " ASC"@)
    }
}

pub open spec fn where_part(w: Seq<char>) -> Seq<char> {
    if w == "1 = 1"@ {
        Seq::empty()
    } else {
        " WHERE "@ + w
    }
}

/// `SELECT [DISTINCT] a, b, .. FROM `.
pub open spec fn select_head(s: QuerySpecV, sel: Seq<(Seq<char>, OutputColV)>) -> Seq<char> {
    "SELECT "@ + (if s.distinct {
        "DISTINCT "@
    } else {
        Seq::empty()
    }) + join(sel.map_values(|p: (Seq<char>, OutputColV)| p.0), ", "@) + " FROM "@
}

pub open spec fn paging_text(s: QuerySpecV) -> Seq<char> {
    if paged(s) {
        " LIMIT ? OFFSET ?"@
    } else {
        Seq::empty()
    }
}

/// The SELECT statement of a request, its parameters and its output columns.
pub open spec fn select_spec(t: Table, reg: Registry, s: QuerySpecV) -> Result<(Seq<char>, Seq<SqlV>, Seq<OutputColV>), ErrV> {
    match parts_spec(t, reg, s) {
        Err(e) => Err(e),
        Ok((from, w, ps)) => match (if aggregated(s) {
            agg_select(t, reg, s)
        } else {
            plain_select(t, reg, s)
        }) {
            Err(e) => Err(e),
            Ok(sel) => if aggregated(s) && sel.len() == 0 {
                Err(e_param("group_by / agg 至少需要一个参数"@))
            } else {
                match group_clause(t, reg, s.group_by) {
                    Err(e) => Err(e),
                    Ok(g) => match order_clause(t, reg, s) {
                        Err(e) => Err(e),
                        Ok(o) => Ok((
                            select_head(s, sel) + from + where_part(w) + g + o + paging_text(s),
                            ps + (if paged(s) {
                                seq![
                                    SqlV::Integer(limit_of(s.limit, s.page_size) as i64),
                                    SqlV::Integer(offset_of(s) as i64),
                                ]
                            } else {
                                Seq::empty()
                            }),
                            sel.map_values(|p: (Seq<char>, OutputColV)| p.1),
                        )),
                    },
                }
            },
        },
    }
}

/// The COUNT statement of a request: the same FROM and WHERE as its SELECT.
pub open spec fn count_spec(t: Table, reg: Registry, s: QuerySpecV) -> Result<(Seq<char>, Seq<SqlV>), ErrV> {
    match parts_spec(t, reg, s) {
        Err(e) => Err(e),
        Ok((from, w, ps)) => Ok(("SELECT count(*) FROM "@ + from + where_part(w), ps)),
    }
}

/// The total counts the rows the list pages through: whenever the SELECT of a
/// request is accepted, its COUNT is accepted too, reads from the same tables
/// under the same WHERE (what follows `SELECT count(*) FROM ` in the COUNT
/// follows ` FROM ` in the SELECT), and binds the SELECT's first parameters; a
/// refused COUNT is a SELECT refused for the same reason.
#[verifier::spinoff_prover]
#[verifier::rlimit(40)]
pub proof fn law_count_matches_list(t: Table, reg: Registry, s: QuerySpecV)
    ensures
        count_spec(t, reg, s) is Err ==> select_spec(t, reg, s) == Err::<(Seq<char>, Seq<SqlV>, Seq<OutputColV>), ErrV>(
            count_spec(t, reg, s)->Err_0,
        ),
        select_spec(t, reg, s) is Ok ==> count_spec(t, reg, s) is Ok && {
            let c = count_spec(t, reg, s)->Ok_0;
            let q = select_spec(t, reg, s)->Ok_0;
            let body = c.0.subrange(21, c.0.len() as int);
            &&& c.0 == "SELECT count(*) FROM "@ + body
            &&& has_text(q.0, " FROM "@ + body)
            &&& c.1.len() <= q.1.len()
            &&& c.1 == q.1.subrange(0, c.1.len() as int)
        },
{
    reveal_strlit("SELECT count(*) FROM ");
    if select_spec(t, reg, s) is Ok {
        let (from, w, ps) = parts_spec(t, reg, s)->Ok_0;
        let sel = (if aggregated(s) {
            agg_select(t, reg, s)
        } else {
            plain_select(t, reg, s)
        })->Ok_0;
        let g = group_clause(t, reg, s.group_by)->Ok_0;
        let o = order_clause(t, reg, s)->Ok_0;
        let c = count_spec(t, reg, s)->Ok_0;
        let q = select_spec(t, reg, s)->Ok_0;
        let body = from + where_part(w);
        assert(c.0 == "SELECT count(*) FROM "@ + body);
        assert(c.0.subrange(21, c.0.len() as int) =~= body);
        let items = "SELECT "@ + (if s.distinct {
            "DISTINCT "@
        } else {
            Seq::empty()
        }) + join(sel.map_values(|p: (Seq<char>, OutputColV)| p.0), ", "@);
        let rest = g + o + paging_text(s);
        assert(q.0 =~= items + (" FROM "@ + body) + rest);
        let i = items.len() as int;
        assert(occurs_at(q.0, " FROM "@ + body, i)) by {
            assert(q.0.subrange(i, i + (" FROM "@ + body).len()) =~= " FROM "@ + body);
        }
        assert(c.1 =~= q.1.subrange(0, c.1.len() as int));
    }
}

pub open spec fn sel_view(sql: Seq<String>, outs: Seq<OutputCol>) -> Seq<(Seq<char>, OutputColV)> {
    Seq::new(sql.len(), |i: int| (sql[i]@, outs[i]@))
}

/// Appends select items (SQL text and output column) for `entries`.
fn push_sel(sel: &mut Vec<String>, outs: &mut Vec<OutputCol>, x: String, o: OutputCol)
    requires
        old(sel).len() == old(outs).len(),
    ensures
        final(sel).len() == final(outs).len(),
        sel_view(final(sel)@, final(outs)@) == sel_view(old(sel)@, old(outs)@).push((x@, o@)),
{
    let ghost before = sel_view(sel@, outs@);
    sel.push(x);
    outs.push(o);
    assert(sel_view(sel@, outs@) =~= before.push((x@, o@)));
}

fn select_items(t: &Table, reg: &Registry, spec: &QuerySpec, sel: &mut Vec<String>, outs: &mut Vec<OutputCol>) -> (r: Result<(), ApiError>)
    requires
        old(sel).len() == 0,
        old(outs).len() == 0,
    ensures
        final(sel).len() == final(outs).len(),
        match r {
            Ok(_) => (if aggregated(spec@) { agg_select(*t, *reg, spec@) } else { plain_select(*t, *reg, spec@) })
                == Ok::<Seq<(Seq<char>, OutputColV)>, ErrV>(sel_view(final(sel)@, final(outs)@)),
            Err(e) => (if aggregated(spec@) { agg_select(*t, *reg, spec@) } else { plain_select(*t, *reg, spec@) })
                == Err::<Seq<(Seq<char>, OutputColV)>, ErrV>(e@),
        },
{
    assert(sel_view(sel@, outs@) =~= Seq::<(Seq<char>, OutputColV)>::empty());
    if spec.aggregates.len() > 0 || spec.group_by.len() > 0 {
        let ghost ra = spec@.group_by.map_values(|g: Seq<char>| group_sel(*t, *reg, g));
        let mut i: usize = 0;
        assert(ra.subrange(0, 0) =~= Seq::<Result<(Seq<char>, OutputColV), ErrV>>::empty());
        while i < spec.group_by.len()
            invariant
                i <= spec.group_by.len(),
                sel.len() == outs.len(),
                aggregated(spec@),
                ra == spec@.group_by.map_values(|g: Seq<char>| group_sel(*t, *reg, g)),
                collect(ra.subrange(0, i as int)) == Ok::<Seq<(Seq<char>, OutputColV)>, ErrV>(sel_view(sel@, outs@)),
            decreases spec.group_by.len() - i,
        {
            proof {
                lemma_collect_step(ra, i as int);
            }
            let g = &spec.group_by[i];
            match expr_of(t, reg, g.as_str()) {
                Ok(x) => push_sel(sel, outs, x, OutputCol::Base(copy_string(g))),
                Err(e) => {
                    proof {
                        lemma_collect_prefix_err(ra, i + 1);
                    }
                    return Err(e);
                },
            }
            i += 1;
        }
        proof {
            lemma_collect_all(ra);
        }
        let ghost a = sel_view(sel@, outs@);
        let ghost rb = spec@.aggregates.map_values(|x: AggV| agg_sel(*t, *reg, x));
        let mut k: usize = 0;
        assert(rb.subrange(0, 0) =~= Seq::<Result<(Seq<char>, OutputColV), ErrV>>::empty());
        assert(a + Seq::<(Seq<char>, OutputColV)>::empty() =~= a);
        while k < spec.aggregates.len()
            invariant
                k <= spec.aggregates.len(),
                sel.len() == outs.len(),
                aggregated(spec@),
                ra == spec@.group_by.map_values(|g: Seq<char>| group_sel(*t, *reg, g)),
                collect(ra) == Ok::<Seq<(Seq<char>, OutputColV)>, ErrV>(a),
                rb == spec@.aggregates.map_values(|x: AggV| agg_sel(*t, *reg, x)),
                collect(rb.subrange(0, k as int)) matches Ok(b) && sel_view(sel@, outs@) == a + b,
            decreases spec.aggregates.len() - k,
        {
            proof {
                lemma_collect_step(rb, k as int);
            }
            let ghost b = collect(rb.subrange(0, k as int))->Ok_0;
            let ag = &spec.aggregates[k];
            match agg_sql(t, reg, ag) {
                Ok(x) => {
                    let q = quote_ident(ag.alias.as_str());
                    let item = cat3(x.as_str(), " AS ", q.as_str());
                    push_sel(sel, outs, item, OutputCol::Agg { alias: copy_string(&ag.alias) });
                    assert(a + b.push(agg_sel(*t, *reg, ag@)->Ok_0) =~= (a + b).push(agg_sel(*t, *reg, ag@)->Ok_0));
                },
                Err(e) => {
                    proof {
                        lemma_collect_prefix_err(rb, k + 1);
                    }
                    return Err(e);
                },
            }
            k += 1;
        }
        proof {
            lemma_collect_all(rb);
        }
        Ok(())
    } else {
        let cols: Vec<String> = if spec.select.len() == 0 {
            t.column_names()
        } else {
            crate::text::copy_strings(&spec.select)
        };
        let ghost ra = cols.deep_view().map_values(|c: Seq<char>| col_sel(*t, *reg, c));
        let mut i: usize = 0;
        assert(ra.subrange(0, 0) =~= Seq::<Result<(Seq<char>, OutputColV), ErrV>>::empty());
        while i < cols.len()
            invariant
                i <= cols.len(),
                sel.len() == outs.len(),
                !aggregated(spec@),
                cols.deep_view() == (if spec@.select.len() == 0 { col_names(t.columns@) } else { spec@.select }),
                ra == cols.deep_view().map_values(|c: Seq<char>| col_sel(*t, *reg, c)),
                collect(ra.subrange(0, i as int)) == Ok::<Seq<(Seq<char>, OutputColV)>, ErrV>(sel_view(sel@, outs@)),
            decreases cols.len() - i,
        {
            proof {
                lemma_collect_step(ra, i as int);
            }
            let c = &cols[i];
            let cc = chars_of(c.as_str());
            let joined = match find_char(&cc, '.') {
                Some(d) => {
                    let relc = slice_chars(&cc, 0, d);
                    let rel = string_of(relc.as_slice());
                    if t.belongs(rel.as_str()).is_some() {
                        let colc = slice_chars(&cc, d + 1, cc.len());
                        let col = string_of(colc.as_slice());
                        let q2 = quote_pair(rel.as_str(), col.as_str());
                        let alias = cat3(rel.as_str(), "__", col.as_str());
                        let qa = quote_ident(alias.as_str());
                        let item = cat3(q2.as_str(), " AS ", qa.as_str());
                        push_sel(sel, outs, item, OutputCol::Joined { key: rel, column: col });
                        true
                    } else {
                        false
                    }
                },
                None => false,
            };
            if !joined {
                match expr_of(t, reg, c.as_str()) {
                    Ok(x) => push_sel(sel, outs, x, OutputCol::Base(copy_string(c))),
                    Err(e) => {
                        proof {
                            lemma_collect_prefix_err(ra, i + 1);
                        }
                        return Err(e);
                    },
                }
            }
            i += 1;
        }
        proof {
            lemma_collect_all(ra);
        }
        let ghost a = sel_view(sel@, outs@);
        let ghost rb = spec@.expand.map_values(|e: Seq<char>| expand_sel(*reg, e));
        let mut k: usize = 0;
        assert(rb.subrange(0, 0) =~= Seq::<Result<Seq<(Seq<char>, OutputColV)>, ErrV>>::empty());
        assert(a + crate::error::concat_all(Seq::<Seq<(Seq<char>, OutputColV)>>::empty()) =~= a);
        while k < spec.expand.len()
            invariant
                k <= spec.expand.len(),
                sel.len() == outs.len(),
                !aggregated(spec@),
                collect(ra) == Ok::<Seq<(Seq<char>, OutputColV)>, ErrV>(a),
                cols.deep_view() == (if spec@.select.len() == 0 { col_names(t.columns@) } else { spec@.select }),
                ra == cols.deep_view().map_values(|c: Seq<char>| col_sel(*t, *reg, c)),
                rb == spec@.expand.map_values(|e: Seq<char>| expand_sel(*reg, e)),
                collect(rb.subrange(0, k as int)) matches Ok(b) && sel_view(sel@, outs@) == a + crate::error::concat_all(b),
            decreases spec.expand.len() - k,
        {
            proof {
                lemma_collect_step(rb, k as int);
            }
            let ghost b = collect(rb.subrange(0, k as int))->Ok_0;
            let e = &spec.expand[k];
            let rt = match reg.table(e.as_str()) {
                Ok(rt) => rt,
                Err(x) => {
                    proof {
                        lemma_collect_prefix_err(rb, k + 1);
                    }
                    return Err(x);
                },
            };
            let ghost mid = sel_view(sel@, outs@);
            let ghost items = expand_sel(*reg, e@)->Ok_0;
            let mut j: usize = 0;
            assert(mid + items.subrange(0, 0) =~= mid);
            while j < rt.columns.len()
                invariant
                    j <= rt.columns.len(),
                    sel.len() == outs.len(),
                    reg.lookup(e@) == Some(*rt),
                    items == expand_sel(*reg, e@)->Ok_0,
                    sel_view(sel@, outs@) == mid + items.subrange(0, j as int),
                decreases rt.columns.len() - j,
            {
                let cn = &rt.columns[j].name;
                let q2 = quote_pair(e.as_str(), cn.as_str());
                let alias = cat3(e.as_str(), "__", cn.as_str());
                let qa = quote_ident(alias.as_str());
                let item = cat3(q2.as_str(), " AS ", qa.as_str());
                push_sel(sel, outs, item, OutputCol::Joined { key: copy_string(e), column: copy_string(cn) });
                assert(mid + items.subrange(0, j + 1) =~= (mid + items.subrange(0, j as int)).push(items[j as int]));
                j += 1;
            }
            proof {
                assert(rt.columns@.len() == items.len());
                assert(items.subrange(0, rt.columns.len() as int) =~= items);
                assert(b.push(items).drop_last() =~= b);
                assert(a + crate::error::concat_all(b.push(items)) =~= (a + crate::error::concat_all(b)) + items);
            }
            k += 1;
        }
        proof {
            lemma_collect_all(rb);
        }
        Ok(())
    }
}

fn exprs_of(t: &Table, reg: &Registry, cs: &Vec<String>) -> (r: Result<Vec<String>, ApiError>)
    ensures
        match r {
            Ok(v) => collect(cs.deep_view().map_values(|x: Seq<char>| expr_spec(*t, *reg, x))) == Ok::<Seq<Seq<char>>, ErrV>(v.deep_view()),
            Err(e) => collect(cs.deep_view().map_values(|x: Seq<char>| expr_spec(*t, *reg, x))) == Err::<Seq<Seq<char>>, ErrV>(e@),
        },
{
    let ghost rs = cs.deep_view().map_values(|x: Seq<char>| expr_spec(*t, *reg, x));
    let mut out: Vec<String> = Vec::new();
    let mut i: usize = 0;
    assert(rs.subrange(0, 0) =~= Seq::<Result<Seq<char>, ErrV>>::empty());
    assert(out.deep_view() =~= Seq::<Seq<char>>::empty());
    while i < cs.len()
        invariant
            i <= cs.len(),
            rs == cs.deep_view().map_values(|x: Seq<char>| expr_spec(*t, *reg, x)),
            collect(rs.subrange(0, i as int)) == Ok::<Seq<Seq<char>>, ErrV>(out.deep_view()),
        decreases cs.len() - i,
    {
        proof {
            lemma_collect_step(rs, i as int);
        }
        match expr_of(t, reg, cs[i].as_str()) {
            Ok(x) => {
                let ghost before = out.deep_view();
                let ghost xv = x@;
                out.push(x);
                assert(out.deep_view() =~= before.push(xv));
            },
            Err(e) => {
                proof {
                    lemma_collect_prefix_err(rs, i + 1);
                }
                return Err(e);
            },
        }
        i += 1;
    }
    proof {
        lemma_collect_all(rs);
    }
    Ok(out)
}

pub open spec fn plan_view(p: SelectPlan) -> (Seq<char>, Seq<SqlV>, Seq<OutputColV>) {
    (p.sql@, sql_view(p.params@), outs_view(p.outputs@))
}

/// Builds the SELECT statement of a request.
#[verifier::rlimit(60)]
pub fn build_select(t: &Table, reg: &Registry, spec: &QuerySpec) -> (r: Result<SelectPlan, ApiError>)
    ensures
        match r {
            Ok(p) => select_spec(*t, *reg, spec@) == Ok::<(Seq<char>, Seq<SqlV>, Seq<OutputColV>), ErrV>(plan_view(p)),
            Err(e) => select_spec(*t, *reg, spec@) == Err::<(Seq<char>, Seq<SqlV>, Seq<OutputColV>), ErrV>(e@),
        },
{
    let parts = build_parts(t, reg, spec)?;
    let mut params = parts.params;
    let mut sel: Vec<String> = Vec::new();
    let mut outs: Vec<OutputCol> = Vec::new();
    select_items(t, reg, spec, &mut sel, &mut outs)?;
    let agg = spec.aggregates.len() > 0 || spec.group_by.len() > 0;
    if agg && sel.len() == 0 {
        return Err(ApiError::param("group_by / agg 至少需要一个参数"));
    }
    let ghost sv = sel_view(sel@, outs@);
    assert(sel.deep_view() =~= sv.map_values(|p: (Seq<char>, OutputColV)| p.0));
    assert(outs_view(outs@) =~= sv.map_values(|p: (Seq<char>, OutputColV)| p.1));
    let list = join_strings(&sel, ", ");
    let head = if spec.distinct {
        owned("SELECT DISTINCT ")
    } else {
        owned("SELECT ")
    };
    proof {
        reveal_strlit("SELECT DISTINCT ");
        reveal_strlit("SELECT ");
        reveal_strlit("DISTINCT ");
        assert(head@ =~= "SELECT "@ + (if spec@.distinct { "DISTINCT "@ } else { Seq::<char>::empty() }));
    }
    let mut sql = cat3(head.as_str(), list.as_str(), " FROM ");
    assert(sql@ == select_head(spec@, sv));
    sql = cat(sql.as_str(), parts.from.as_str());
    let ghost s1 = sql@;
    if !str_eq(parts.where_sql.as_str(), "1 = 1") {
        sql = cat3(sql.as_str(), " WHERE ", parts.where_sql.as_str());
        assert(sql@ =~= s1 + where_part(parts.where_sql@));
    } else {
        assert(sql@ =~= s1 + where_part(parts.where_sql@));
    }
    let ghost s2 = sql@;
    if spec.group_by.len() > 0 {
        let g = exprs_of(t, reg, &spec.group_by)?;
        let gj = join_strings(&g, ", ");
        sql = cat3(sql.as_str(), " GROUP BY ", gj.as_str());
        assert(sql@ =~= s2 + group_clause(*t, *reg, spec@.group_by)->Ok_0);
    } else {
        assert(sql@ =~= s2 + group_clause(*t, *reg, spec@.group_by)->Ok_0);
    }
    let ghost s3 = sql@;
    if spec.order_by.len() > 0 {
        let o = order_sql(t, reg, &spec.order_by)?;
        sql = cat3(sql.as_str(), " ORDER BY ", o.as_str());
        assert(sql@ =~= s3 + order_clause(*t, *reg, spec@)->Ok_0);
    } else if agg {
        sql = cat(sql.as_str(), " ORDER BY 1");
        assert(sql@ =~= s3 + order_clause(*t, *reg, spec@)->Ok_0);
    } else {
        let q = quote_pair(t.name.as_str(), "id");
        sql = cat3(sql.as_str(), " ORDER BY ", q.as_str());
        sql = cat(sql.as_str(), " ASC");
        assert(sql@ =~= s3 + order_clause(*t, *reg, spec@)->Ok_0);
    }
    let ghost s4 = sql@;
    let paging = !agg || spec.page.is_some() || spec.page_size.is_some() || spec.limit.is_some();
    let ghost ps0 = sql_view(params@);
    if paging {
        sql = cat(sql.as_str(), " LIMIT ? OFFSET ?");
        params.push(SqlVal::Integer(spec.effective_limit()));
        params.push(SqlVal::Integer(spec.effective_offset()));
        assert(sql_view(params@) =~= ps0 + seq![
            SqlV::Integer(limit_of(spec@.limit, spec@.page_size) as i64),
            SqlV::Integer(offset_of(spec@) as i64),
        ]);
    } else {
        assert(sql_view(params@) =~= ps0 + Seq::<SqlV>::empty());
    }
    assert(sql@ =~= s4 + paging_text(spec@));
    Ok(SelectPlan { sql, params, outputs: outs })
}

/// Builds the COUNT statement of a request (the same conditions as its SELECT).
pub fn build_count(t: &Table, reg: &Registry, spec: &QuerySpec) -> (r: Result<(String, Vec<SqlVal>), ApiError>)
    ensures
        match r {
            Ok((s, ps)) => count_spec(*t, *reg, spec@) == Ok::<(Seq<char>, Seq<SqlV>), ErrV>((s@, sql_view(ps@))),
            Err(e) => count_spec(*t, *reg, spec@) == Err::<(Seq<char>, Seq<SqlV>), ErrV>(e@),
        },
{
    let parts = build_parts(t, reg, spec)?;
    let mut sql = cat("SELECT count(*) FROM ", parts.from.as_str());
    let ghost base = sql@;
    if !str_eq(parts.where_sql.as_str(), "1 = 1") {
        sql = cat3(sql.as_str(), " WHERE ", parts.where_sql.as_str());
        assert(sql@ =~= base + where_part(parts.where_sql@));
    } else {
        assert(sql@ =~= base + where_part(parts.where_sql@));
    }
    Ok((sql, parts.params))
}

// ---------------------------------------------------------------------------
// Result rows
// ---------------------------------------------------------------------------

/// An aggregate's value as JSON (text as text; a blob reads as null).
pub open spec fn plain_json_spec(v: SqlV) -> JsonV {
    match v {
        SqlV::Null => JsonV::Null,
        SqlV::Integer(i) => JsonV::Int(i),
        SqlV::Real(t) => if crate::query::parse::float_word(t) {
            JsonV::Null
        } else {
            JsonV::Num(t)
        },
        SqlV::Text(s) => JsonV::Str(s),
        SqlV::Blob => JsonV::Null,
    }
}

pub fn plain_json(v: SqlVal) -> (r: Json)
    ensures
        r@ == plain_json_spec(v@),
{
    match v {
        SqlVal::Null => Json::Null,
        SqlVal::Integer(i) => Json::Int(i),
        SqlVal::Real(t) => {
            if crate::query::parse::is_float_word(t.as_str()) {
                Json::Null
            } else {
                Json::Num(t)
            }
        },
        SqlVal::Text(s) => Json::Str(s),
        SqlVal::Blob => Json::Null,
    }
}

/// `Map::insert`: the member `k` takes the value `v`, or is added last.
pub open spec fn obj_put(m: Seq<(Seq<char>, JsonV)>, k: Seq<char>, v: JsonV) -> Seq<(Seq<char>, JsonV)> {
    match member_at(m, k, 0) {
        Some(i) => m.update(i, (k, v)),
        None => m.push((k, v)),
    }
}

proof fn lemma_member_at(m: Seq<(Seq<char>, JsonV)>, k: Seq<char>, i: int)
    requires
        0 <= i,
    ensures
        member_at(m, k, i) matches Some(j) ==> i <= j < m.len() && m[j].0 == k,
    decreases m.len() - i,
{
    if i < m.len() && m[i].0 != k {
        lemma_member_at(m, k, i + 1);
    }
}

/// After `obj_put(m, k, v)` the member `k` reads `v`, and every other member
/// reads as before.
pub proof fn law_put_then_get(m: Seq<(Seq<char>, JsonV)>, k: Seq<char>, v: JsonV, other: Seq<char>)
    requires
        other != k,
    ensures
        obj_get(obj_put(m, k, v), k) == Some(v),
        obj_get(obj_put(m, k, v), other) == obj_get(m, other),
{
    let m2 = obj_put(m, k, v);
    lemma_member_at_first(m, k, 0);
    lemma_member_at_first(m2, k, 0);
    lemma_member_at_first(m, other, 0);
    lemma_member_at_first(m2, other, 0);
    lemma_obj_get_first(m2, k);
    lemma_obj_get_first(m, other);
    lemma_obj_get_first(m2, other);
    match member_at(m, k, 0) {
        Some(j) => {
            assert(m2 == m.update(j, (k, v)));
            match member_at(m2, k, 0) {
                Some(j2) => {
                    if j2 < j {
                        assert(m2[j2] == m[j2]);
                    }
                    if j2 > j {
                        assert(m2[j].0 == k);
                    }
                },
                None => {
                    assert(m2[j].0 == k);
                },
            }
            match (member_at(m, other, 0), member_at(m2, other, 0)) {
                (Some(a), Some(b)) => {
                    if a < b {
                        assert(m2[a] == m[a]);
                    }
                    if b < a {
                        assert(m2[b].0 == m[b].0);
                    }
                    assert(a == b);
                    assert(m2[a] == m[a]);
                },
                (Some(a), None) => {
                    assert(m2[a] == m[a]);
                },
                (None, Some(b)) => {
                    assert(m2[b].0 == m[b].0);
                },
                (None, None) => {},
            }
        },
        None => {
            assert(m2 == m.push((k, v)));
            match member_at(m2, k, 0) {
                Some(j2) => {
                    if j2 < m.len() {
                        assert(m2[j2] == m[j2]);
                    }
                },
                None => {
                    assert(m2[m.len() as int].0 == k);
                },
            }
            match (member_at(m, other, 0), member_at(m2, other, 0)) {
                (Some(a), Some(b)) => {
                    if a < b {
                        assert(m2[a] == m[a]);
                    }
                    if b < a {
                        assert(m2[b] == m[b]);
                    }
                    assert(a == b);
                    assert(m2[a] == m[a]);
                },
                (Some(a), None) => {
                    assert(m2[a] == m[a]);
                },
                (None, Some(b)) => {
                    if b < m.len() {
                        assert(m2[b] == m[b]);
                    }
                },
                (None, None) => {},
            }
        },
    }
}

pub(crate) fn obj_put_exec(m: &mut Vec<(String, Json)>, k: String, v: Json)
    ensures
        crate::json::jv_obj(final(m)@) == obj_put(crate::json::jv_obj(old(m)@), k@, v@),
{
    proof {
        crate::json::lemma_jv_obj(m@);
    }
    let ghost mv = crate::json::jv_obj(m@);
    let mut j: usize = 0;
    while j < m.len()
        invariant
            j <= m.len(),
            m@ == old(m)@,
            mv == crate::json::jv_obj(m@),
            mv.len() == m.len(),
            forall|q: int| 0 <= q < m.len() ==> #[trigger] mv[q] == (m@[q].0@, crate::json::jv(m@[q].1)),
            member_at(mv, k@, 0) == member_at(mv, k@, j as int),
        decreases m.len() - j,
    {
        if str_eq(m[j].0.as_str(), k.as_str()) {
            proof {
                lemma_member_at(mv, k@, 0);
            }
            let ghost m0 = m@;
            let ghost kv = k@;
            let ghost vv = v@;
            m.remove(j);
            m.insert(j, (k, v));
            assert(m@ =~= m0.update(j as int, m@[j as int]));
            proof {
                crate::json::lemma_jv_obj(m@);
                assert(crate::json::jv_obj(m@) =~= mv.update(j as int, (kv, vv)));
            }
            return;
        }
        j += 1;
    }
    let ghost m0 = m@;
    let ghost kv = k@;
    let ghost vv = v@;
    m.push((k, v));
    proof {
        crate::json::lemma_jv_obj_push(m0, m@[m0.len() as int]);
        assert(m0.push(m@[m0.len() as int]) =~= m@);
    }
}

/// The sub-objects of joined tables: per table, its columns in the order read.
pub open spec fn group_put(
    g: Seq<(Seq<char>, Seq<(Seq<char>, JsonV)>)>,
    key: Seq<char>,
    col: Seq<char>,
    v: JsonV,
) -> Seq<(Seq<char>, Seq<(Seq<char>, JsonV)>)> {
    match group_at(g, key, 0) {
        Some(i) => g.update(i, (key, obj_put(g[i].1, col, v))),
        None => g.push((key, obj_put(Seq::empty(), col, v))),
    }
}

pub open spec fn group_at(g: Seq<(Seq<char>, Seq<(Seq<char>, JsonV)>)>, k: Seq<char>, i: int) -> Option<int>
    decreases g.len() - i,
{
    if i < 0 || i >= g.len() {
        None
    } else if g[i].0 == k {
        Some(i)
    } else {
        group_at(g, k, i + 1)
    }
}

/// What the reading of one output column does to the row object and the joined groups.
pub open spec fn read_col(
    t: Table,
    reg: Registry,
    out: OutputColV,
    v: SqlV,
    raw_json: bool,
    st: (Seq<(Seq<char>, JsonV)>, Seq<(Seq<char>, Seq<(Seq<char>, JsonV)>)>),
) -> Result<(Seq<(Seq<char>, JsonV)>, Seq<(Seq<char>, Seq<(Seq<char>, JsonV)>)>), ErrV> {
    match out {
        OutputColV::Base(name) => {
            let (tbl, colname) = match first_index(name, '.') {
                Some(d) => (reg.lookup(name.subrange(0, d)), name.subrange(d + 1, name.len() as int)),
                None => (Some(t), name),
            };
            match tbl {
                None => Err(e_unknown_table(name.subrange(0, first_index(name, '.')->0), table_names(reg.all()))),
                Some(tb) => match tb.col(colname) {
                    None => Err(e_unknown_column(tb.name@, colname, col_names(tb.columns@))),
                    Some(c) => {
                        let x = crate::value::sql_to_json_spec(c, v, raw_json);
                        match first_index(name, '.') {
                            Some(d) => if first_belongs(t.belongs_to@, name.subrange(0, d)) is Some {
                                Ok((st.0, group_put(st.1, name.subrange(0, d), colname, x)))
                            } else {
                                Ok((obj_put(st.0, name, x), st.1))
                            },
                            None => Ok((obj_put(st.0, name, x), st.1)),
                        }
                    },
                },
            }
        },
        OutputColV::Agg { alias } => Ok((obj_put(st.0, alias, plain_json_spec(v)), st.1)),
        OutputColV::Joined { key, column } => match reg.lookup(key) {
            None => Err(e_unknown_table(key, table_names(reg.all()))),
            Some(rt) => match rt.col(column) {
                None => Err(e_unknown_column(rt.name@, column, col_names(rt.columns@))),
                Some(c) => Ok((st.0, group_put(st.1, key, column, crate::value::sql_to_json_spec(c, v, raw_json)))),
            },
        },
    }
}

/// The first `n` output columns read, in order.
pub open spec fn read_row(
    t: Table,
    reg: Registry,
    outs: Seq<OutputColV>,
    row: Seq<SqlV>,
    raw_json: bool,
    n: nat,
) -> Result<(Seq<(Seq<char>, JsonV)>, Seq<(Seq<char>, Seq<(Seq<char>, JsonV)>)>), ErrV>
    decreases n,
{
    if n == 0 {
        Ok((Seq::empty(), Seq::empty()))
    } else {
        match read_row(t, reg, outs, row, raw_json, (n - 1) as nat) {
            Err(e) => Err(e),
            Ok(st) => read_col(t, reg, outs[n - 1], row[n - 1], raw_json, st),
        }
    }
}

pub open spec fn all_null(m: Seq<(Seq<char>, JsonV)>) -> bool {
    forall|i: int| 0 <= i < m.len() ==> #[trigger] m[i].1 is Null
}

/// Joined groups put into the row object: a group whose values are all null is null.
pub open spec fn put_groups(map: Seq<(Seq<char>, JsonV)>, g: Seq<(Seq<char>, Seq<(Seq<char>, JsonV)>)>) -> Seq<(Seq<char>, JsonV)>
    decreases g.len(),
{
    if g.len() == 0 {
        map
    } else {
        let e = g.last();
        obj_put(put_groups(map, g.drop_last()), e.0, if all_null(e.1) { JsonV::Null } else { JsonV::Object(e.1) })
    }
}

/// The JSON object of a result row, read by the plan's output columns.
pub open spec fn row_spec(t: Table, reg: Registry, outs: Seq<OutputColV>, row: Seq<SqlV>, raw_json: bool) -> Result<JsonV, ErrV> {
    match read_row(t, reg, outs, row, raw_json, outs.len()) {
        Err(e) => Err(e),
        Ok((map, g)) => Ok(JsonV::Object(put_groups(map, g))),
    }
}

pub type Groups = Vec<(String, Vec<(String, Json)>)>;

pub open spec fn groups_view(g: Seq<(String, Vec<(String, Json)>)>) -> Seq<(Seq<char>, Seq<(Seq<char>, JsonV)>)> {
    g.map_values(|e: (String, Vec<(String, Json)>)| (e.0@, crate::json::jv_obj(e.1@)))
}

fn group_put_exec(g: &mut Groups, key: String, col: String, v: Json)
    ensures
        groups_view(final(g)@) == group_put(groups_view(old(g)@), key@, col@, v@),
{
    let ghost gv = groups_view(g@);
    let mut j: usize = 0;
    while j < g.len()
        invariant
            j <= g.len(),
            g@ == old(g)@,
            gv == groups_view(g@),
            group_at(gv, key@, 0) == group_at(gv, key@, j as int),
        decreases g.len() - j,
    {
        if str_eq(g[j].0.as_str(), key.as_str()) {
            let ghost g0 = g@;
            let mut e = g.remove(j);
            assert(e == g0[j as int]);
            obj_put_exec(&mut e.1, col, v);
            let ghost e2 = e;
            g.insert(j, e);
            assert(g@ =~= g0.update(j as int, e2));
            assert(groups_view(g@) =~= gv.update(j as int, (key@, obj_put(gv[j as int].1, col@, v@))));
            return;
        }
        j += 1;
    }
    let mut m: Vec<(String, Json)> = Vec::new();
    assert(crate::json::jv_obj(m@) =~= Seq::<(Seq<char>, JsonV)>::empty());
    obj_put_exec(&mut m, col, v);
    let ghost g0 = groups_view(g@);
    let ghost kv = key@;
    let ghost mv = crate::json::jv_obj(m@);
    g.push((key, m));
    assert(groups_view(g@) =~= g0.push((kv, mv)));
}

fn is_all_null(m: &Vec<(String, Json)>) -> (r: bool)
    ensures
        r == all_null(crate::json::jv_obj(m@)),
{
    proof {
        crate::json::lemma_jv_obj(m@);
    }
    let mut i: usize = 0;
    while i < m.len()
        invariant
            i <= m.len(),
            crate::json::jv_obj(m@).len() == m.len(),
            forall|q: int| 0 <= q < m.len() ==> #[trigger] crate::json::jv_obj(m@)[q] == (m@[q].0@, crate::json::jv(m@[q].1)),
            forall|q: int| 0 <= q < i ==> #[trigger] crate::json::jv_obj(m@)[q].1 is Null,
        decreases m.len() - i,
    {
        match &m[i].1 {
            Json::Null => {},
            _ => {
                assert(!(crate::json::jv_obj(m@)[i as int].1 is Null));
                return false;
            },
        }
        i += 1;
    }
    true
}

/// One result row as a JSON object: JSON columns decoded (unless raw), joined tables'
/// columns nested under the table's name (null when all their values are null),
/// aggregates under their alias.  `row` holds the row's values in output order.
pub fn row_to_json(row: &Vec<SqlVal>, plan: &SelectPlan, t: &Table, reg: &Registry, raw_json: bool) -> (r: Result<Json, ApiError>)
    requires
        row.len() == plan.outputs.len(),
    ensures
        match r {
            Ok(j) => row_spec(*t, *reg, outs_view(plan.outputs@), sql_view(row@), raw_json) == Ok::<JsonV, ErrV>(j@),
            Err(e) => row_spec(*t, *reg, outs_view(plan.outputs@), sql_view(row@), raw_json) == Err::<JsonV, ErrV>(e@),
        },
{
    let ghost ov = outs_view(plan.outputs@);
    let ghost rv = sql_view(row@);
    let mut map: Vec<(String, Json)> = Vec::new();
    let mut joined: Groups = Vec::new();
    let mut i: usize = 0;
    assert(crate::json::jv_obj(map@) =~= Seq::<(Seq<char>, JsonV)>::empty());
    assert(groups_view(joined@) =~= Seq::<(Seq<char>, Seq<(Seq<char>, JsonV)>)>::empty());
    while i < plan.outputs.len()
        invariant
            i <= plan.outputs.len(),
            row.len() == plan.outputs.len(),
            ov == outs_view(plan.outputs@),
            rv == sql_view(row@),
            read_row(*t, *reg, ov, rv, raw_json, i as nat) == Ok::<(Seq<(Seq<char>, JsonV)>, Seq<(Seq<char>, Seq<(Seq<char>, JsonV)>)>), ErrV>(
                (crate::json::jv_obj(map@), groups_view(joined@)),
            ),
        decreases plan.outputs.len() - i,
    {
        let v = clone_sql_val(&row[i]);
        match &plan.outputs[i] {
            OutputCol::Base(name) => {
                let nc = chars_of(name.as_str());
                let (tbl, colname): (&Table, String) = match find_char(&nc, '.') {
                    Some(d) => {
                        let relc = slice_chars(&nc, 0, d);
                        let rel = string_of(relc.as_slice());
                        let cc = slice_chars(&nc, d + 1, nc.len());
                        match reg.table(rel.as_str()) {
                            Ok(x) => (x, string_of(cc.as_slice())),
                            Err(e) => {
                                proof {
                                    lemma_read_row_err(*t, *reg, ov, rv, raw_json, i as nat + 1);
                                }
                                return Err(e);
                            },
                        }
                    },
                    None => (t, copy_string(name)),
                };
                let col = match tbl.require_column(colname.as_str()) {
                    Ok(c) => c,
                    Err(e) => {
                        proof {
                            lemma_read_row_err(*t, *reg, ov, rv, raw_json, i as nat + 1);
                        }
                        return Err(e);
                    },
                };
                let x = crate::value::sql_to_json(col, v, raw_json);
                let nested = match find_char(&nc, '.') {
                    Some(d) => {
                        let relc = slice_chars(&nc, 0, d);
                        let rel = string_of(relc.as_slice());
                        if t.belongs(rel.as_str()).is_some() {
                            group_put_exec(&mut joined, rel, colname, x);
                            true
                        } else {
                            obj_put_exec(&mut map, copy_string(name), x);
                            false
                        }
                    },
                    None => {
                        obj_put_exec(&mut map, copy_string(name), x);
                        false
                    },
                };
            },
            OutputCol::Agg { alias } => {
                obj_put_exec(&mut map, copy_string(alias), plain_json(v));
            },
            OutputCol::Joined { key, column } => {
                let rt = match reg.table(key.as_str()) {
                    Ok(x) => x,
                    Err(e) => {
                        proof {
                            lemma_read_row_err(*t, *reg, ov, rv, raw_json, i as nat + 1);
                        }
                        return Err(e);
                    },
                };
                let col = match rt.require_column(column.as_str()) {
                    Ok(c) => c,
                    Err(e) => {
                        proof {
                            lemma_read_row_err(*t, *reg, ov, rv, raw_json, i as nat + 1);
                        }
                        return Err(e);
                    },
                };
                let x = crate::value::sql_to_json(col, v, raw_json);
                group_put_exec(&mut joined, copy_string(key), copy_string(column), x);
            },
        }
        i += 1;
    }
    let mut k: usize = 0;
    let ghost m0 = crate::json::jv_obj(map@);
    let ghost gv = groups_view(joined@);
    assert(gv.subrange(0, 0) =~= Seq::<(Seq<char>, Seq<(Seq<char>, JsonV)>)>::empty());
    while k < joined.len()
        invariant
            k <= joined.len(),
            gv == groups_view(joined@),
            crate::json::jv_obj(map@) == put_groups(m0, gv.subrange(0, k as int)),
        decreases joined.len() - k,
    {
        let ghost sub = gv.subrange(0, k + 1);
        assert(sub.drop_last() =~= gv.subrange(0, k as int));
        let nul = is_all_null(&joined[k].1);
        let val = if nul {
            Json::Null
        } else {
            Json::Object(crate::json::clone_json_obj(&joined[k].1))
        };
        obj_put_exec(&mut map, copy_string(&joined[k].0), val);
        k += 1;
    }
    assert(gv.subrange(0, joined.len() as int) =~= gv);
    Ok(Json::Object(map))
}

fn clone_sql_val(v: &SqlVal) -> (r: SqlVal)
    ensures
        r@ == v@,
{
    crate::value::clone_sql(v)
}

proof fn lemma_read_row_err(t: Table, reg: Registry, outs: Seq<OutputColV>, row: Seq<SqlV>, raw_json: bool, k: nat)
    requires
        k <= outs.len(),
        read_row(t, reg, outs, row, raw_json, k) is Err,
    ensures
        read_row(t, reg, outs, row, raw_json, outs.len()) == read_row(t, reg, outs, row, raw_json, k),
    decreases outs.len() - k,
{
    if k < outs.len() {
        lemma_read_row_err(t, reg, outs, row, raw_json, k + 1);
    }
}

/// A polymorphic table (one with `person_type` or `entity_type`) must be given both
/// the type and the id.
pub open spec fn poly_spec(t: Table, conds: Seq<(Seq<char>, JsonV)>) -> Result<(), ErrV> {
    let names = col_names(t.columns@);
    let pair = if names.contains("person_type"@) {
        Some(("person_type"@, "person_id"@))
    } else if names.contains("entity_type"@) {
        Some(("entity_type"@, "entity_id"@))
    } else {
        None
    };
    match pair {
        None => Ok(()),
        Some((k1, k2)) => {
            let has1 = obj_get(conds, k1) matches Some(v) && !(v is Null);
            let has2 = obj_get(conds, k2) matches Some(v) && !(v is Null);
            if has1 && has2 {
                Ok(())
            } else {
                Err(e_param("表 "@ + t.name@ + " 是多态表，必须同时提供 "@ + k1 + " 与 "@ + k2))
            }
        },
    }
}

fn given(conds: &Vec<(String, Json)>, k: &str) -> (r: bool)
    ensures
        r == (obj_get(crate::json::jv_obj(conds@), k@) matches Some(v) && !(v is Null)),
{
    match crate::json::json_get(conds, k) {
        Some(Json::Null) => false,
        Some(_) => true,
        None => false,
    }
}

pub fn require_polymorphic_keys(t: &Table, conds: &Vec<(String, Json)>) -> (r: Result<(), ApiError>)
    ensures
        match r {
            Ok(_) => poly_spec(*t, crate::json::jv_obj(conds@)) is Ok,
            Err(e) => poly_spec(*t, crate::json::jv_obj(conds@)) == Err::<(), ErrV>(e@),
        },
{
    let names = t.column_names();
    let (k1, k2) = if contains_str(&names, "person_type") {
        ("person_type", "person_id")
    } else if contains_str(&names, "entity_type") {
        ("entity_type", "entity_id")
    } else {
        return Ok(());
    };
    if given(conds, k1) && given(conds, k2) {
        return Ok(());
    }
    let a = cat3("表 ", t.name.as_str(), " 是多态表，必须同时提供 ");
    let b = cat3(a.as_str(), k1, " 与 ");
    let m = cat(b.as_str(), k2);
    Err(ApiError::param(m.as_str()))
}
} // verus!
