//! What the query operations mean, stated over their inputs and results: the
//! comparison a leaf writes, how `IS [NOT] NULL` reads, how an `or[n]` group
//! joins its filters, how a boolean text is stored, and which rows a page
//! starts at.

use crate::error::{collect, ErrV};
use crate::json::JsonV;
use crate::query::ast::{as_text_spec, combine, cond_sql, qi2, CondV, LeafV, Op};
use crate::query::builder::{json_cols, order_sql_spec, paged, search_leaves, select_spec, where_conds};
use crate::schema::searchable;
use crate::query::ast::{in_values, repeat_text, to_sql_all};
use crate::query::parse::{
    and_group, group_leaves, limit_of, offset_of, or_group, page_of, query_finish, somes, QuerySpecV, QueryStateV,
    order_item_spec, OrderByV, DEFAULT_PAGE_SIZE, MAX_PAGE, MAX_PAGE_SIZE,
};
use crate::query::where_dsl::{p_comparison, tok_at, value_of, TokV};
use crate::schema::{Column, Registry, Table};
use crate::text::trim;
use crate::value::{direction_spec, json_to_sql_spec, SqlV};
use crate::text::{int_text, lower};
use crate::query::ast::qi;
use crate::query::parse::truthy_text;
use crate::routes::{delete_where_sql, filter_delete_spec};
use vstd::prelude::*;

verus! {

/// A column of `t` named plainly (trimmed, not empty, no `.`).
pub open spec fn plain_column(t: Table, c: Seq<char>) -> bool {
    &&& t.col(c) is Some
    &&& trim(c) == c
    &&& c.len() > 0
    &&& !c.contains('.')
}

pub open spec fn one_value(c: Seq<char>, op: Op, v: JsonV) -> CondV {
    CondV::Leaf(LeafV { column: c, op, values: seq![v] })
}

/// A one-value comparison on a plain column writes the SQL operator its
/// operator names between the column and its one placeholder, and binds the
/// value as the column takes it: `lt` is `<`, `lte` is `<=`, `gt` is `>`,
/// `gte` is `>=` (a strict comparison never becomes a non-strict one).
pub proof fn law_comparisons_write_their_operator(t: Table, reg: Registry, alias: Seq<char>, c: Seq<char>, v: JsonV)
    requires
        plain_column(t, c),
        json_to_sql_spec(t.col(c)->0, v) is Ok,
    ensures
        ({
            let p = json_to_sql_spec(t.col(c)->0, v)->Ok_0;
            let col = qi2(alias, c);
            &&& cond_sql(t, reg, alias, one_value(c, Op::Lt, v)) == Ok::<(Seq<char>, Seq<SqlV>), ErrV>((col + " < ?"@, seq![p]))
            &&& cond_sql(t, reg, alias, one_value(c, Op::Lte, v)) == Ok::<(Seq<char>, Seq<SqlV>), ErrV>((col + " <= ?"@, seq![p]))
            &&& cond_sql(t, reg, alias, one_value(c, Op::Gt, v)) == Ok::<(Seq<char>, Seq<SqlV>), ErrV>((col + " > ?"@, seq![p]))
            &&& cond_sql(t, reg, alias, one_value(c, Op::Gte, v)) == Ok::<(Seq<char>, Seq<SqlV>), ErrV>((col + " >= ?"@, seq![p]))
        }),
{
    assert(crate::text::first_index(c, '.') is None);
    let p = json_to_sql_spec(t.col(c)->0, v)->Ok_0;
    assert(Seq::<SqlV>::empty() + seq![p] =~= seq![p]);
}

/// `col IS NULL` reads as an `IsNull` leaf and `col IS NOT NULL` as an
/// `IsNotNull` leaf: the leaf is negated exactly when `NOT` stands between
/// `IS` and `NULL`, and the comparison ends after `NULL`.
pub proof fn law_is_not_null_is_negated(t: Table, reg: Registry, toks: Seq<TokV>, p: int, col: Seq<char>)
    requires
        0 <= p,
        p + 3 <= toks.len(),
        toks[p] == TokV::Ident(col),
        toks[p + 1] == TokV::Is,
        crate::query::ast::resolve_spec(t, reg, col, Op::IsNull) is Ok,
    ensures
        toks[p + 2] == TokV::Null ==> p_comparison(toks, p, t, reg) == Ok::<(CondV, int), ErrV>(
            (CondV::Leaf(LeafV { column: col, op: Op::IsNull, values: Seq::empty() }), p + 3),
        ),
        toks[p + 2] == TokV::Not && p + 4 <= toks.len() && toks[p + 3] == TokV::Null ==> p_comparison(toks, p, t, reg)
            == Ok::<(CondV, int), ErrV>(
            (CondV::Leaf(LeafV { column: col, op: Op::IsNotNull, values: Seq::empty() }), p + 4),
        ),
{
    assert(crate::query::ast::resolve_spec(t, reg, col, Op::IsNotNull) == crate::query::ast::resolve_spec(
        t,
        reg,
        col,
        Op::IsNull,
    ));
}

proof fn lemma_collect_len<A>(s: Seq<Result<A, ErrV>>)
    requires
        collect(s) is Ok,
    ensures
        collect(s)->Ok_0.len() == s.len(),
    decreases s.len(),
{
    if s.len() > 0 {
        lemma_collect_len(s.drop_last());
    }
}

/// The filters of one `or[n]` group join by OR: a group of two or more keys
/// that all read is the disjunction of their leaves, in order.
pub proof fn law_or_group_is_a_disjunction(t: Table, reg: Registry, items: Seq<(Seq<char>, Seq<Seq<char>>)>)
    requires
        items.len() >= 2,
        group_leaves(t, reg, items) is Ok,
    ensures
        or_group(t, reg, items) == Ok::<Option<CondV>, ErrV>(Some(CondV::Or(group_leaves(t, reg, items)->Ok_0))),
{
    lemma_collect_len(items.map_values(|p: (Seq<char>, Seq<Seq<char>>)| crate::query::parse::leaf_key_spec(t, reg, p.0, p.1)));
}

/// A request whose only filters are one `or[n]` group of two or more keys
/// reads as the disjunction of those filters.
pub proof fn law_or_group_request(t: Table, reg: Registry, st: QueryStateV, n: usize, items: Seq<(Seq<char>, Seq<Seq<char>>)>)
    requires
        items.len() >= 2,
        group_leaves(t, reg, items) is Ok,
        st.flat.len() == 0,
        st.ors == seq![(n, items)],
        st.ands.len() == 0,
        st.where_expr is None,
        st.spec.select.len() == 0,
        st.spec.group_by.len() == 0,
    ensures
        query_finish(t, reg, st) == Ok::<QuerySpecV, ErrV>(
            QuerySpecV { cond: Some(CondV::Or(group_leaves(t, reg, items)->Ok_0)), ..st.spec },
        ),
{
    reveal(query_finish);
    law_or_group_is_a_disjunction(t, reg, items);
    let ls = group_leaves(t, reg, items)->Ok_0;
    let ef = group_leaves(t, reg, st.flat);
    assert(st.flat.map_values(|p: (Seq<char>, Seq<Seq<char>>)| crate::query::parse::leaf_key_spec(t, reg, p.0, p.1))
        =~= Seq::<Result<CondV, ErrV>>::empty());
    assert(ef == Ok::<Seq<CondV>, ErrV>(Seq::empty()));
    let rs = st.ors.map_values(|g: (usize, Seq<(Seq<char>, Seq<Seq<char>>)>)| or_group(t, reg, g.1));
    assert(rs.len() == 1 && rs[0] == or_group(t, reg, items));
    assert(rs =~= seq![Ok::<Option<CondV>, ErrV>(Some(CondV::Or(ls)))]);
    assert(rs.drop_last() =~= Seq::<Result<Option<CondV>, ErrV>>::empty());
    assert(collect(rs.drop_last()) == Ok::<Seq<Option<CondV>>, ErrV>(Seq::empty()));
    assert(Seq::<Option<CondV>>::empty().push(Some(CondV::Or(ls))) =~= seq![Some(CondV::Or(ls))]);
    assert(collect(rs) == Ok::<Seq<Option<CondV>>, ErrV>(seq![Some(CondV::Or(ls))]));
    let os = seq![Some(CondV::Or(ls))];
    assert(os.drop_last() =~= Seq::<Option<CondV>>::empty());
    assert(somes(os.drop_last()) =~= Seq::<CondV>::empty());
    assert(Seq::<CondV>::empty().push(CondV::Or(ls)) =~= seq![CondV::Or(ls)]);
    assert(somes(os) =~= seq![CondV::Or(ls)]);
    let ra = st.ands.map_values(
        |g: (usize, Seq<(Seq<char>, Seq<Seq<char>>)>)| crate::query::parse::and_group(t, reg, g.1),
    );
    assert(ra =~= Seq::<Result<CondV, ErrV>>::empty());
    assert(Seq::<CondV>::empty() + somes(os) + Seq::<CondV>::empty() =~= seq![CondV::Or(ls)]);
    assert(combine(seq![CondV::Or(ls)], false) == Some(CondV::Or(ls)));
    assert((st.spec.select + st.spec.group_by) =~= Seq::<Seq<char>>::empty());
}

/// A BOOLEAN column (without an enum) stores the texts `0`, `false`,
/// `FALSE`, `False` and the empty text (around whitespace) as 0, and `1`,
/// `true`, `TRUE`, `True` as 1.
pub proof fn law_boolean_texts(col: Column, s: Seq<char>)
    requires
        col.ty@ == "BOOLEAN"@,
        col.enum_values is None,
    ensures
        (trim(s) == "0"@ || trim(s) == "false"@ || trim(s) == "FALSE"@ || trim(s) == "False"@ || trim(s) == ""@)
            ==> json_to_sql_spec(col, JsonV::Str(s)) == Ok::<SqlV, ErrV>(SqlV::Integer(0)),
        (trim(s) == "1"@ || trim(s) == "true"@ || trim(s) == "TRUE"@ || trim(s) == "True"@) ==> json_to_sql_spec(
            col,
            JsonV::Str(s),
        ) == Ok::<SqlV, ErrV>(SqlV::Integer(1)),
{
    reveal_strlit("0");
    reveal_strlit("false");
    reveal_strlit("FALSE");
    reveal_strlit("False");
    reveal_strlit("");
    reveal_strlit("1");
    reveal_strlit("true");
    reveal_strlit("TRUE");
    reveal_strlit("True");
    reveal_strlit("BOOLEAN");
    let u = trim(s);
    // naming the first characters lets the texts be told apart
    if u.len() > 0 {
        let (a, b) = (u[0], u.len());
    }
}

/// A request that gives a non-negative offset starts at that row: the
/// effective offset is that offset, and a paged SELECT ends with
/// `LIMIT ? OFFSET ?` binding the effective limit and that offset.
pub proof fn law_offset_is_kept(t: Table, reg: Registry, s: QuerySpecV, o: i64)
    requires
        s.offset == Some(o),
        o >= 0,
    ensures
        offset_of(s) == o,
        select_spec(t, reg, s) is Ok && paged(s) ==> {
            let q = select_spec(t, reg, s)->Ok_0;
            &&& q.1.len() >= 2
            &&& q.1.last() == SqlV::Integer(o)
            &&& q.1[q.1.len() - 2] == SqlV::Integer(crate::query::parse::limit_of(s.limit, s.page_size) as i64)
            &&& crate::text::ends_with(q.0, " LIMIT ? OFFSET ?"@)
        },
{
    if select_spec(t, reg, s) is Ok && paged(s) {
        let q = select_spec(t, reg, s)->Ok_0;
        let tail = " LIMIT ? OFFSET ?"@;
        assert(q.0.subrange(q.0.len() - tail.len(), q.0.len() as int) =~= tail);
    }
}

/// The other one-value comparisons write their operator too: `eq` is `=`,
/// `ne` is `<>`; and the text searches bind the value as text: `like` is
/// `LIKE '%' || ? || '%'`, `nlike` is `NOT LIKE '%' || ? || '%'`, `prefix`
/// is `LIKE ? || '%'`, `suffix` is `LIKE '%' || ?`.
pub proof fn law_equalities_and_searches(t: Table, reg: Registry, alias: Seq<char>, c: Seq<char>, v: JsonV)
    requires
        plain_column(t, c),
    ensures
        ({
            let col = qi2(alias, c);
            let x = as_text_spec(v);
            &&& json_to_sql_spec(t.col(c)->0, v) is Ok ==> cond_sql(t, reg, alias, one_value(c, Op::Eq, v))
                == Ok::<(Seq<char>, Seq<SqlV>), ErrV>((col + " = ?"@, seq![json_to_sql_spec(t.col(c)->0, v)->Ok_0]))
            &&& json_to_sql_spec(t.col(c)->0, v) is Ok ==> cond_sql(t, reg, alias, one_value(c, Op::Ne, v))
                == Ok::<(Seq<char>, Seq<SqlV>), ErrV>((col + " <> ?"@, seq![json_to_sql_spec(t.col(c)->0, v)->Ok_0]))
            &&& cond_sql(t, reg, alias, one_value(c, Op::Like, v)) == Ok::<(Seq<char>, Seq<SqlV>), ErrV>(
                (col + " LIKE '%' || ? || '%'"@, seq![x]),
            )
            &&& cond_sql(t, reg, alias, one_value(c, Op::NLike, v)) == Ok::<(Seq<char>, Seq<SqlV>), ErrV>(
                (col + " NOT LIKE '%' || ? || '%'"@, seq![x]),
            )
            &&& cond_sql(t, reg, alias, one_value(c, Op::Prefix, v)) == Ok::<(Seq<char>, Seq<SqlV>), ErrV>(
                (col + " LIKE ? || '%'"@, seq![x]),
            )
            &&& cond_sql(t, reg, alias, one_value(c, Op::Suffix, v)) == Ok::<(Seq<char>, Seq<SqlV>), ErrV>(
                (col + " LIKE '%' || ?"@, seq![x]),
            )
        }),
{
    assert(crate::text::first_index(c, '.') is None);
    assert(Seq::<SqlV>::empty() + seq![as_text_spec(v)] =~= seq![as_text_spec(v)]);
    if json_to_sql_spec(t.col(c)->0, v) is Ok {
        let p = json_to_sql_spec(t.col(c)->0, v)->Ok_0;
        assert(Seq::<SqlV>::empty() + seq![p] =~= seq![p]);
    }
}

/// `IS NULL` and `IS NOT NULL` on a plain column bind nothing and say what
/// they name; `BETWEEN` binds its two bounds, low then high.
pub proof fn law_null_tests_and_ranges(t: Table, reg: Registry, alias: Seq<char>, c: Seq<char>, a: JsonV, b: JsonV)
    requires
        plain_column(t, c),
    ensures
        cond_sql(t, reg, alias, CondV::Leaf(LeafV { column: c, op: Op::IsNull, values: Seq::empty() }))
            == Ok::<(Seq<char>, Seq<SqlV>), ErrV>((qi2(alias, c) + " IS NULL"@, Seq::empty())),
        cond_sql(t, reg, alias, CondV::Leaf(LeafV { column: c, op: Op::IsNotNull, values: Seq::empty() }))
            == Ok::<(Seq<char>, Seq<SqlV>), ErrV>((qi2(alias, c) + " IS NOT NULL"@, Seq::empty())),
        json_to_sql_spec(t.col(c)->0, a) is Ok && json_to_sql_spec(t.col(c)->0, b) is Ok ==> cond_sql(
            t,
            reg,
            alias,
            CondV::Leaf(LeafV { column: c, op: Op::Between, values: seq![a, b] }),
        ) == Ok::<(Seq<char>, Seq<SqlV>), ErrV>(
            (
                qi2(alias, c) + " BETWEEN ? AND ?"@,
                seq![json_to_sql_spec(t.col(c)->0, a)->Ok_0, json_to_sql_spec(t.col(c)->0, b)->Ok_0],
            ),
        ),
{
    assert(crate::text::first_index(c, '.') is None);
    assert(Seq::<SqlV>::empty() + Seq::<SqlV>::empty() =~= Seq::<SqlV>::empty());
    if json_to_sql_spec(t.col(c)->0, a) is Ok && json_to_sql_spec(t.col(c)->0, b) is Ok {
        let d = t.col(c)->0;
        let pa = json_to_sql_spec(d, a)->Ok_0;
        let pb = json_to_sql_spec(d, b)->Ok_0;
        let vs = seq![a, b];
        assert(vs.drop_last() =~= seq![a]);
        assert(seq![a].drop_last() =~= Seq::<JsonV>::empty());
        assert(crate::query::ast::to_sql_all(d, Op::Between, seq![a]) == Ok::<Seq<SqlV>, ErrV>(seq![pa])) by {
            assert(crate::query::ast::to_sql_all(d, Op::Between, Seq::<JsonV>::empty()) == Ok::<Seq<SqlV>, ErrV>(Seq::empty()));
            assert(seq![a].last() == a);
            assert(crate::query::ast::to_sql_spec(d, Op::Between, a) == Ok::<SqlV, ErrV>(pa));
            assert(Seq::<SqlV>::empty().push(pa) =~= seq![pa]);
        }
        assert(crate::query::ast::to_sql_all(d, Op::Between, vs) == Ok::<Seq<SqlV>, ErrV>(seq![pa, pb])) by {
            assert(vs.last() == b);
            assert(crate::query::ast::to_sql_spec(d, Op::Between, b) == Ok::<SqlV, ErrV>(pb));
            assert(seq![pa].push(pb) =~= seq![pa, pb]);
        }
        assert(Seq::<SqlV>::empty() + seq![pa, pb] =~= seq![pa, pb]);
    }
}

/// Each comparison token of a where text gives the operator it names: `=`
/// `Eq`, `!=` `Ne`, `>` `Gt`, `>=` `Gte`, `<` `Lt`, `<=` `Lte`; `LIKE` gives
/// `Like` and `NOT LIKE` `NLike`; `BETWEEN a AND b` gives `Between` over `a`
/// and `b`; the leaf holds the value written, and the comparison ends after it.
pub proof fn law_where_operators(t: Table, reg: Registry, toks: Seq<TokV>, p: int, col: Seq<char>)
    requires
        0 <= p,
        p + 1 < toks.len(),
        toks[p] == TokV::Ident(col),
        crate::query::ast::resolve_spec(t, reg, col, Op::Eq) is Ok,
    ensures
        ({
            let v = value_of(tok_at(toks, p + 2));
            let leaf = |op: Op| Ok::<(CondV, int), ErrV>((CondV::Leaf(LeafV { column: col, op, values: seq![v->Ok_0] }), p + 3));
            &&& v is Ok && toks[p + 1] == TokV::Eq ==> p_comparison(toks, p, t, reg) == leaf(Op::Eq)
            &&& v is Ok && toks[p + 1] == TokV::Ne ==> p_comparison(toks, p, t, reg) == leaf(Op::Ne)
            &&& v is Ok && toks[p + 1] == TokV::Gt ==> p_comparison(toks, p, t, reg) == leaf(Op::Gt)
            &&& v is Ok && toks[p + 1] == TokV::Gte ==> p_comparison(toks, p, t, reg) == leaf(Op::Gte)
            &&& v is Ok && toks[p + 1] == TokV::Lt ==> p_comparison(toks, p, t, reg) == leaf(Op::Lt)
            &&& v is Ok && toks[p + 1] == TokV::Lte ==> p_comparison(toks, p, t, reg) == leaf(Op::Lte)
            &&& v is Ok && toks[p + 1] == TokV::Like ==> p_comparison(toks, p, t, reg) == leaf(Op::Like)
        }),
        ({
            let v = value_of(tok_at(toks, p + 3));
            v is Ok && toks[p + 1] == TokV::Not && p + 2 < toks.len() && toks[p + 2] == TokV::Like ==> p_comparison(toks, p, t, reg)
                == Ok::<(CondV, int), ErrV>((CondV::Leaf(LeafV { column: col, op: Op::NLike, values: seq![v->Ok_0] }), p + 4))
        }),
        ({
            let a = value_of(tok_at(toks, p + 2));
            let b = value_of(tok_at(toks, p + 4));
            a is Ok && b is Ok && toks[p + 1] == TokV::Between && p + 3 < toks.len() && toks[p + 3] == TokV::And ==> p_comparison(
                toks,
                p,
                t,
                reg,
            ) == Ok::<(CondV, int), ErrV>(
                (CondV::Leaf(LeafV { column: col, op: Op::Between, values: seq![a->Ok_0, b->Ok_0] }), p + 5),
            )
        }),
{
}

/// The filters of one `and[n]` group join by AND: the conjunction of their
/// leaves, in order.
pub proof fn law_and_group_is_a_conjunction(t: Table, reg: Registry, items: Seq<(Seq<char>, Seq<Seq<char>>)>)
    requires
        group_leaves(t, reg, items) is Ok,
    ensures
        and_group(t, reg, items) == Ok::<CondV, ErrV>(CondV::And(group_leaves(t, reg, items)->Ok_0)),
{
}

/// A BOOLEAN column (without an enum) stores `true` as 1 and `false` as 0,
/// and an integer as 1 exactly when it is not 0.
pub proof fn law_boolean_values(col: Column, b: bool, i: i64)
    requires
        col.ty@ == "BOOLEAN"@,
        col.enum_values is None,
    ensures
        json_to_sql_spec(col, JsonV::Bool(b)) == Ok::<SqlV, ErrV>(SqlV::Integer(if b { 1 } else { 0 })),
        json_to_sql_spec(col, JsonV::Int(i)) == Ok::<SqlV, ErrV>(SqlV::Integer(if i != 0 { 1 } else { 0 })),
{
}

/// The page size is the `limit` given, else the `page_size` given (each kept
/// within 1..=200), else 20; the page is the one given (kept within
/// 1..=10000), else the first; without an offset a page starts after the
/// rows of the pages before it.
pub proof fn law_paging(s: QuerySpecV, l: i64, ps: i64, pg: i64)
    ensures
        s.limit == Some(l) && 1 <= l <= MAX_PAGE_SIZE ==> limit_of(s.limit, s.page_size) == l,
        s.limit is None && s.page_size == Some(ps) && 1 <= ps <= MAX_PAGE_SIZE ==> limit_of(s.limit, s.page_size) == ps,
        s.limit is None && s.page_size is None ==> limit_of(s.limit, s.page_size) == DEFAULT_PAGE_SIZE,
        s.page == Some(pg) && 1 <= pg <= MAX_PAGE ==> page_of(s.page) == pg,
        s.page is None ==> page_of(s.page) == 1,
        s.offset is None ==> offset_of(s) == (page_of(s.page) - 1) * limit_of(s.limit, s.page_size),
{
}

/// A sort direction reads without regard to case: `asc` sorts up and `desc`
/// down, each with NULLs where SQLite puts them, and the `_nulls_last` forms
/// put NULLs last.
pub proof fn law_sort_directions(d: Seq<char>)
    ensures
        lower(d) == "asc"@ ==> direction_spec(d) == Ok::<(Seq<char>, bool), ErrV>(("ASC"@, false)),
        lower(d) == "desc"@ ==> direction_spec(d) == Ok::<(Seq<char>, bool), ErrV>(("DESC"@, false)),
        lower(d) == "asc_nulls_last"@ ==> direction_spec(d) == Ok::<(Seq<char>, bool), ErrV>(("ASC"@, true)),
        lower(d) == "desc_nulls_last"@ ==> direction_spec(d) == Ok::<(Seq<char>, bool), ErrV>(("DESC"@, true)),
{
    reveal_strlit("asc");
    reveal_strlit("desc");
    reveal_strlit("asc_nulls_last");
    reveal_strlit("desc_nulls_last");
    let l = lower(d);
    if l.len() > 3 {
        // naming the characters that tell the forms apart
        let (a, b, n) = (l[0], l[3], l.len());
    }
}

/// An `order_by` item `-col` sorts by `col` downwards and a bare `col` (no `-`
/// before it, no `:` in it) upwards.
pub proof fn law_order_items(t: Table, reg: Registry, c: Seq<char>)
    requires
        plain_column(t, c),
        !c.contains(':'),
        c[0] != '-',
    ensures
        order_item_spec(t, reg, seq!['-'] + c) == Ok::<OrderByV, ErrV>(OrderByV { column: c, direction: "DESC"@, nulls_last: false }),
        order_item_spec(t, reg, c) == Ok::<OrderByV, ErrV>(OrderByV { column: c, direction: "ASC"@, nulls_last: false }),
{
    reveal(order_item_spec);
    reveal_strlit("asc");
    reveal_strlit("desc");
    assert((seq!['-'] + c).drop_first() =~= c);
    assert(crate::text::first_index(c, '.') is None);
    assert(crate::text::first_index(c, ':') is None);
    crate::query::ast::lemma_lower_name("asc"@);
    crate::query::ast::lemma_lower_name("desc"@);
    law_sort_directions("asc"@);
    law_sort_directions("desc"@);
}

/// One sort key on a plain column orders by that column of the table in its
/// direction, after `(col IS NULL) ASC` when NULLs go last.
pub proof fn law_order_clause(t: Table, reg: Registry, c: Seq<char>, dir: Seq<char>, nulls_last: bool)
    requires
        plain_column(t, c),
    ensures
        order_sql_spec(t, reg, seq![OrderByV { column: c, direction: dir, nulls_last }]) == Ok::<Seq<char>, ErrV>(
            if nulls_last {
                "("@ + qi2(t.name@, c) + " IS NULL) ASC, "@ + qi2(t.name@, c) + " "@ + dir
            } else {
                qi2(t.name@, c) + " "@ + dir
            },
        ),
{
    assert(crate::text::first_index(c, '.') is None);
    let o = OrderByV { column: c, direction: dir, nulls_last };
    let x = qi2(t.name@, c);
    let piece = if nulls_last {
        seq!["("@ + x + " IS NULL) ASC"@, x + " "@ + dir]
    } else {
        seq![x + " "@ + dir]
    };
    let rs = seq![o].map_values(|o: OrderByV| crate::query::builder::order_piece(t, reg, o));
    assert(rs =~= seq![Ok::<Seq<Seq<char>>, ErrV>(piece)]);
    assert(rs.drop_last() =~= Seq::<Result<Seq<Seq<char>>, ErrV>>::empty());
    assert(Seq::<Seq<Seq<char>>>::empty().push(piece) =~= seq![piece]);
    assert(collect(rs.drop_last()) == Ok::<Seq<Seq<Seq<char>>>, ErrV>(Seq::empty()));
    assert(rs.last() == Ok::<Seq<Seq<char>>, ErrV>(piece));
    assert(collect(rs) == Ok::<Seq<Seq<Seq<char>>>, ErrV>(seq![piece]));
    let flat = crate::error::concat_all(seq![piece]);
    assert(seq![piece].drop_last() =~= Seq::<Seq<Seq<char>>>::empty());
    assert(flat =~= piece) by {
        assert(crate::error::concat_all(Seq::<Seq<Seq<char>>>::empty()) =~= Seq::<Seq<char>>::empty());
        assert(Seq::<Seq<char>>::empty() + piece =~= piece);
    }
    if nulls_last {
        assert(piece.drop_last() =~= seq!["("@ + x + " IS NULL) ASC"@]);
        assert(seq!["("@ + x + " IS NULL) ASC"@].drop_last() =~= Seq::<Seq<char>>::empty());
        let a = "("@ + x + " IS NULL) ASC"@;
        let b = x + " "@ + dir;
        assert(crate::text::join(seq![a], ", "@) == a);
        assert(piece.last() == b);
        assert(crate::text::join(piece, ", "@) == crate::text::join(seq![a], ", "@) + ", "@ + b);
        assert(crate::text::join(piece, ", "@) =~= "("@ + x + " IS NULL) ASC, "@ + x + " "@ + dir) by {
            reveal_strlit(" IS NULL) ASC");
            reveal_strlit(", ");
            reveal_strlit(" IS NULL) ASC, ");
            assert(" IS NULL) ASC"@ + ", "@ =~= " IS NULL) ASC, "@);
        }
    }
}

/// A row is found by its key: the WHERE of the id `int_text(v)` on a table
/// with a primary key compares the first key column with one placeholder bound
/// to `v`.
pub proof fn law_key_where(t: Table, v: i64)
    requires
        t.primary_key@.len() > 0,
    ensures
        crate::routes::pk_where_spec(t, int_text(v as int)) == Ok::<(Seq<char>, Seq<SqlV>), ErrV>(
            (crate::query::ast::qi(t.primary_key@[0]@) + " = ?"@, seq![SqlV::Integer(v)]),
        ),
{
    crate::text::lemma_int_text_reads_back(v);
}

proof fn lemma_int_text_trimmed(i: i64)
    ensures
        trim(int_text(i as int)) == int_text(i as int),
{
    let n: nat = if i < 0 { (-(i as int)) as nat } else { i as nat };
    crate::text::lemma_nat_text_reads_back(n);
    let d = crate::text::nat_text(n);
    let s = int_text(i as int);
    assert(crate::text::is_digit(d[0]) && crate::text::is_digit(d.last()));
    assert(s.len() > 0 && !crate::text::is_ws(s[0]) && !crate::text::is_ws(s.last())) by {
        if i < 0 {
            assert(s[0] == '-');
            assert(s.last() == d.last());
        }
    }
    assert(crate::text::trim_start(s) == s);
    assert(crate::text::trim_end(s) == s);
}

/// How a value is bound for a column (no enum): NULL is refused by a required
/// column and bound as NULL otherwise; an INTEGER column binds an integer as
/// itself and the decimal text of an integer as that integer; a REAL column
/// binds an integer as its decimal text and a number as its text; a plain
/// TEXT column binds a string as it is.
pub proof fn law_column_bindings(col: Column, i: i64, x: Seq<char>)
    requires
        col.enum_values is None,
    ensures
        !col.not_null ==> json_to_sql_spec(col, JsonV::Null) == Ok::<SqlV, ErrV>(SqlV::Null),
        col.not_null ==> json_to_sql_spec(col, JsonV::Null) is Err && json_to_sql_spec(col, JsonV::Null)->Err_0.code == 40001,
        col.ty@ == "INTEGER"@ ==> json_to_sql_spec(col, JsonV::Int(i)) == Ok::<SqlV, ErrV>(SqlV::Integer(i)),
        col.ty@ == "INTEGER"@ ==> json_to_sql_spec(col, JsonV::Str(int_text(i as int))) == Ok::<SqlV, ErrV>(SqlV::Integer(i)),
        col.ty@ == "REAL"@ ==> json_to_sql_spec(col, JsonV::Int(i)) == Ok::<SqlV, ErrV>(SqlV::Real(int_text(i as int))),
        col.ty@ == "REAL"@ ==> json_to_sql_spec(col, JsonV::Num(x)) == Ok::<SqlV, ErrV>(SqlV::Real(x)),
        col.ty@ == "TEXT"@ && !col.json ==> json_to_sql_spec(col, JsonV::Str(x)) == Ok::<SqlV, ErrV>(SqlV::Text(x)),
{
    reveal_strlit("BOOLEAN");
    reveal_strlit("INTEGER");
    reveal_strlit("REAL");
    reveal_strlit("TEXT");
    crate::text::lemma_int_text_reads_back(i);
    lemma_int_text_trimmed(i);
    assert("INTEGER"@[0] != "BOOLEAN"@[0]);
    assert("REAL"@[0] != "BOOLEAN"@[0] && "REAL"@[0] != "INTEGER"@[0]);
    assert("TEXT"@[0] != "BOOLEAN"@[0] && "TEXT"@[0] != "INTEGER"@[0] && "TEXT"@[0] != "REAL"@[0]);
}

/// An `in` leaf on a plain column tests membership in its values, one
/// placeholder each, bound in order; `nin` tests the opposite.  An empty list
/// matches no row for `in` and every row for `nin`, binding nothing.
pub proof fn law_membership(t: Table, reg: Registry, alias: Seq<char>, c: Seq<char>, vals: Seq<JsonV>)
    requires
        plain_column(t, c),
        vals.len() >= 1,
    ensures
        ({
            let iv = in_values(vals);
            let d = t.col(c)->0;
            let col = qi2(alias, c);
            let list = crate::text::join(repeat_text("?"@, iv.len()), ", "@);
            &&& iv.len() == 0 ==> cond_sql(t, reg, alias, CondV::Leaf(LeafV { column: c, op: Op::In, values: vals }))
                == Ok::<(Seq<char>, Seq<SqlV>), ErrV>(("1 = 0"@, Seq::empty()))
            &&& iv.len() == 0 ==> cond_sql(t, reg, alias, CondV::Leaf(LeafV { column: c, op: Op::Nin, values: vals }))
                == Ok::<(Seq<char>, Seq<SqlV>), ErrV>(("1 = 1"@, Seq::empty()))
            &&& iv.len() > 0 && to_sql_all(d, Op::In, iv) is Ok ==> cond_sql(
                t,
                reg,
                alias,
                CondV::Leaf(LeafV { column: c, op: Op::In, values: vals }),
            ) == Ok::<(Seq<char>, Seq<SqlV>), ErrV>((col + " IN ("@ + list + ")"@, to_sql_all(d, Op::In, iv)->Ok_0))
            &&& iv.len() > 0 && to_sql_all(d, Op::Nin, iv) is Ok ==> cond_sql(
                t,
                reg,
                alias,
                CondV::Leaf(LeafV { column: c, op: Op::Nin, values: vals }),
            ) == Ok::<(Seq<char>, Seq<SqlV>), ErrV>((col + " NOT IN ("@ + list + ")"@, to_sql_all(d, Op::Nin, iv)->Ok_0))
        }),
{
    assert(crate::text::first_index(c, '.') is None);
    let iv = in_values(vals);
    assert(Seq::<SqlV>::empty() + Seq::<SqlV>::empty() =~= Seq::<SqlV>::empty());
    if iv.len() > 0 {
        let d = t.col(c)->0;
        if to_sql_all(d, Op::In, iv) is Ok {
            let ps = to_sql_all(d, Op::In, iv)->Ok_0;
            assert(Seq::<SqlV>::empty() + ps =~= ps);
        }
        if to_sql_all(d, Op::Nin, iv) is Ok {
            let ps = to_sql_all(d, Op::Nin, iv)->Ok_0;
            assert(Seq::<SqlV>::empty() + ps =~= ps);
        }
    }
}

/// The column named at place `j` of the searched columns is a TEXT column.
proof fn lemma_searched_is_text(cols: Seq<Column>, j: int) -> (i: int)
    requires
        0 <= j < searchable(cols).len(),
    ensures
        0 <= i < cols.len(),
        cols[i].sql_type@ == "TEXT"@,
        searchable(cols)[j] == cols[i].name@,
    decreases cols.len(),
{
    let init = cols.drop_last();
    let s0 = searchable(init);
    if j < s0.len() {
        let i = lemma_searched_is_text(init, j);
        assert(cols[i] == init[i]);
        i
    } else {
        let i = cols.len() - 1;
        assert(cols[i] == cols.last());
        i
    }
}

/// Every TEXT column is among the searched columns.
pub proof fn law_text_columns_are_searched(cols: Seq<Column>)
    ensures
        forall|i: int| 0 <= i < cols.len() && #[trigger] cols[i].sql_type@ == "TEXT"@ ==> searchable(cols).contains(cols[i].name@),
    decreases cols.len(),
{
    if cols.len() > 0 {
        let init = cols.drop_last();
        law_text_columns_are_searched(init);
        let s0 = searchable(init);
        let s = searchable(cols);
        assert forall|i: int| 0 <= i < cols.len() && #[trigger] cols[i].sql_type@ == "TEXT"@ implies s.contains(cols[i].name@) by {
            if i < cols.len() - 1 {
                assert(init[i] == cols[i]);
                assert(s0.contains(cols[i].name@));
                let k = choose|k: int| 0 <= k < s0.len() && s0[k] == cols[i].name@;
                assert(s[k] == s0[k]);
            } else {
                assert(s[s.len() - 1] == cols[i].name@);
            }
        }
    }
}

/// The searched columns are exactly the TEXT columns: every TEXT column is
/// among them, and each of them is a TEXT column of the table.
pub proof fn law_searchable_columns(cols: Seq<Column>)
    ensures
        forall|i: int| 0 <= i < cols.len() && #[trigger] cols[i].sql_type@ == "TEXT"@ ==> searchable(cols).contains(cols[i].name@),
        forall|n: Seq<char>| #[trigger] searchable(cols).contains(n) ==> exists|i: int|
            0 <= i < cols.len() && is_text_column_named(#[trigger] cols[i], n),
{
    law_text_columns_are_searched(cols);
    assert forall|n: Seq<char>| #[trigger] searchable(cols).contains(n) implies exists|i: int|
        0 <= i < cols.len() && is_text_column_named(#[trigger] cols[i], n) by {
        let j = choose|j: int| 0 <= j < searchable(cols).len() && searchable(cols)[j] == n;
        let i = lemma_searched_is_text(cols, j);
        assert(is_text_column_named(cols[i], n));
    }
}

pub open spec fn is_text_column_named(c: Column, n: Seq<char>) -> bool {
    c.sql_type@ == "TEXT"@ && c.name@ == n
}

/// The keyword search `q`, alone, is one OR of `like` tests of `q`: one on
/// every searched (TEXT) column and then one on every JSON column.
pub proof fn law_keyword_search(t: Table, s: QuerySpecV, q: Seq<char>)
    requires
        s.cond is None,
        s.q == Some(q),
        search_leaves(t, q).len() >= 2,
    ensures
        where_conds(t, s) == seq![CondV::Or(search_leaves(t, q))],
        forall|j: int| 0 <= j < search_leaves(t, q).len() ==> #[trigger] search_leaves(t, q)[j] == CondV::Leaf(
            LeafV {
                column: (searchable(t.columns@) + json_cols(t.columns@))[j],
                op: Op::Like,
                values: seq![JsonV::Str(q)],
            },
        ),
{
    assert(Seq::<CondV>::empty() + seq![CondV::Or(search_leaves(t, q))] =~= seq![CondV::Or(search_leaves(t, q))]);
}


/// A delete by condition never runs without one: with no condition it is
/// refused with code 40005, and with one its WHERE text and bindings are those
/// the same condition renders for a list; the statement deletes from the table
/// exactly the rows that WHERE selects.
pub proof fn law_delete_needs_a_condition(t: Table, reg: Registry, c: CondV, w: Seq<char>)
    ensures
        filter_delete_spec(t, reg, None) is Err,
        filter_delete_spec(t, reg, None)->Err_0.code == 40005,
        filter_delete_spec(t, reg, Some(c)) == cond_sql(t, reg, t.name@, c),
        delete_where_sql(t, w) == "DELETE FROM "@ + qi(t.name@) + " WHERE "@ + w,
{
}

/// A flag text reads as set for `1`, `true`, `yes`, `y` and `on` (after
/// trimming), and as unset for `0`, `false`, `no`, `off` and the empty text.
pub proof fn law_flag_words(s: Seq<char>)
    ensures
        (trim(s) == "1"@ || trim(s) == "true"@ || trim(s) == "yes"@ || trim(s) == "y"@ || trim(s) == "on"@)
            ==> truthy_text(s),
        (trim(s) == "0"@ || trim(s) == "false"@ || trim(s) == "no"@ || trim(s) == "off"@ || trim(s) == ""@)
            ==> !truthy_text(s),
{
    reveal_strlit("1");
    reveal_strlit("true");
    reveal_strlit("yes");
    reveal_strlit("y");
    reveal_strlit("on");
    reveal_strlit("0");
    reveal_strlit("false");
    reveal_strlit("no");
    reveal_strlit("off");
    reveal_strlit("");
    let u = trim(s);
    let l = lower(u);
    assert(l.len() == u.len());
    assert forall|i: int| 0 <= i < u.len() && 'a' <= u[i] <= 'z' || 0 <= i < u.len() && '0' <= u[i] <= '9' implies l[i] == u[i] by {}
    if u == "1"@ || u == "true"@ || u == "yes"@ || u == "y"@ || u == "on"@ || u == "0"@ || u == "false"@ || u == "no"@ || u == "off"@ || u == ""@ {
        assert(l =~= u);
        let (a, b) = (l[0], l.len());
    }
}
} // verus!
