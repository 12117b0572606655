//! Every value of a condition is bound: the SQL of a condition holds one
//! placeholder for each parameter it binds, and nothing of a value is written
//! into the text itself (two conditions that differ only in their values give
//! the same text).

use crate::json::JsonV;
use crate::query::ast::{
    arity_ok, col_expr_spec, cond_sql, conds_sql, exists_part, in_values, json_each_op, leaf_binds, leaf_sql, leaf_tail,
    qi, qi2, repeat_text, resolve_spec, single_sql, spread, to_sql_all, ColRefV, CondV, LeafV, Op,
};
use crate::value::SqlV;
use crate::schema::{first_belongs, first_col, BelongsTo, Column, Registry, Table};
use crate::text::join;
use vstd::prelude::*;

verus! {

/// The placeholders (`?`) of an SQL text.
pub open spec fn placeholders(s: Seq<char>) -> nat
    decreases s.len(),
{
    if s.len() == 0 {
        0
    } else {
        placeholders(s.drop_last()) + if s.last() == '?' {
            1nat
        } else {
            0nat
        }
    }
}

/// No name of the whitelist that SQL text is made of holds a `?`: the alias, the
/// columns and the related tables of `t`, and the columns of every table.
pub open spec fn names_plain(t: Table, reg: Registry, alias: Seq<char>) -> bool {
    &&& placeholders(alias) == 0
    &&& forall|i: int| 0 <= i < t.columns@.len() ==> placeholders(#[trigger] t.columns@[i].name@) == 0
    &&& forall|i: int| 0 <= i < t.belongs_to@.len() ==> placeholders(#[trigger] t.belongs_to@[i].table@) == 0
    &&& forall|n: Seq<char>|
        #[trigger] reg.lookup(n) matches Some(rt) ==> forall|i: int|
            0 <= i < rt.columns@.len() ==> placeholders(#[trigger] rt.columns@[i].name@) == 0
}

/// The placeholders of several texts together.
pub open spec fn placeholders_all(parts: Seq<Seq<char>>) -> nat
    decreases parts.len(),
{
    if parts.len() == 0 {
        0
    } else {
        placeholders_all(parts.drop_last()) + placeholders(parts.last())
    }
}

proof fn lemma_add(a: Seq<char>, b: Seq<char>)
    ensures
        placeholders(a + b) == placeholders(a) + placeholders(b),
    decreases b.len(),
{
    if b.len() == 0 {
        assert(a + b =~= a);
    } else {
        lemma_add(a, b.drop_last());
        assert((a + b).drop_last() =~= a + b.drop_last());
    }
}

proof fn lemma_add3(a: Seq<char>, b: Seq<char>, c: Seq<char>)
    ensures
        placeholders(a + b + c) == placeholders(a) + placeholders(b) + placeholders(c),
{
    lemma_add(a, b);
    lemma_add(a + b, c);
}

/// The placeholders of the fixed SQL words.
proof fn lemma_words()
    ensures
        placeholders(seq!['"']) == 0,
        placeholders(seq!['.']) == 0,
        placeholders(" IS NULL"@) == 0,
        placeholders(" IS NOT NULL"@) == 0,
        placeholders("("@) == 0,
        placeholders(")"@) == 0,
        placeholders(" AND "@) == 0,
        placeholders(" OR "@) == 0,
        placeholders("(NOT "@) == 0,
        placeholders("1 = 0"@) == 0,
        placeholders("1 = 1"@) == 0,
        placeholders(", "@) == 0,
        placeholders("?"@) == 1,
        placeholders(" IN ("@) == 0,
        placeholders(" NOT IN ("@) == 0,
        placeholders(" BETWEEN ? AND ?"@) == 2,
        placeholders("EXISTS (SELECT 1 FROM "@) == 0,
        placeholders(" je WHERE CAST(je.value AS TEXT) = ?)"@) == 1,
        placeholders("json_array_length("@) == 0,
        placeholders(") >= ?"@) == 1,
        placeholders(" = ?"@) == 1,
        placeholders(" <> ?"@) == 1,
        placeholders(" > ?"@) == 1,
        placeholders(" >= ?"@) == 1,
        placeholders(" < ?"@) == 1,
        placeholders(" <= ?"@) == 1,
        placeholders(" LIKE '%' || ? || '%'"@) == 1,
        placeholders(" NOT LIKE '%' || ? || '%'"@) == 1,
        placeholders(" LIKE ? || '%'"@) == 1,
        placeholders(" LIKE '%' || ?"@) == 1,
        placeholders("json_each("@) == 0,
        placeholders("json_extract("@) == 0,
        placeholders(", ?)"@) == 1,
{
    reveal_strlit(" IS NULL");
    reveal_strlit(" IS NOT NULL");
    reveal_strlit("(");
    reveal_strlit(")");
    reveal_strlit(" AND ");
    reveal_strlit(" OR ");
    reveal_strlit("(NOT ");
    reveal_strlit("1 = 0");
    reveal_strlit("1 = 1");
    reveal_strlit(", ");
    reveal_strlit("?");
    reveal_strlit(" IN (");
    reveal_strlit(" NOT IN (");
    reveal_strlit(" BETWEEN ? AND ?");
    reveal_strlit("EXISTS (SELECT 1 FROM ");
    reveal_strlit(" je WHERE CAST(je.value AS TEXT) = ?)");
    reveal_strlit("json_array_length(");
    reveal_strlit(") >= ?");
    reveal_strlit(" = ?");
    reveal_strlit(" <> ?");
    reveal_strlit(" > ?");
    reveal_strlit(" >= ?");
    reveal_strlit(" < ?");
    reveal_strlit(" <= ?");
    reveal_strlit(" LIKE '%' || ? || '%'");
    reveal_strlit(" NOT LIKE '%' || ? || '%'");
    reveal_strlit(" LIKE ? || '%'");
    reveal_strlit(" LIKE '%' || ?");
    reveal_strlit("json_each(");
    reveal_strlit("json_extract(");
    reveal_strlit(", ?)");
    reveal_with_fuel(placeholders, 64);
}

/// The one placeholder of the text that closes a `LIKE` search over a JSON array.
proof fn lemma_json_like_word()
    ensures
        placeholders(" je WHERE CAST(je.value AS TEXT) LIKE '%' || ? || '%')"@) == 1,
{
    let whole = " je WHERE CAST(je.value AS TEXT) LIKE '%' || ? || '%')"@;
    let head = " je WHERE CAST(je.value AS TEXT)"@;
    let tail = " LIKE '%' || ? || '%')"@;
    reveal_strlit(" je WHERE CAST(je.value AS TEXT) LIKE '%' || ? || '%')");
    reveal_strlit(" je WHERE CAST(je.value AS TEXT)");
    reveal_strlit(" LIKE '%' || ? || '%')");
    assert(whole =~= head + tail);
    assert(placeholders(head) == 0) by {
        reveal_with_fuel(placeholders, 34);
    }
    assert(placeholders(tail) == 1) by {
        reveal_with_fuel(placeholders, 24);
    }
    lemma_add(head, tail);
}

proof fn lemma_qi(x: Seq<char>)
    ensures
        placeholders(qi(x)) == placeholders(x),
{
    lemma_words();
    lemma_add3(seq!['"'], x, seq!['"']);
}

proof fn lemma_qi2(a: Seq<char>, b: Seq<char>)
    ensures
        placeholders(qi2(a, b)) == placeholders(a) + placeholders(b),
{
    lemma_words();
    lemma_qi(a);
    lemma_qi(b);
    lemma_add3(qi(a), seq!['.'], qi(b));
}

/// Joined by a separator without placeholders, the texts keep their placeholders.
proof fn lemma_join(parts: Seq<Seq<char>>, sep: Seq<char>)
    requires
        placeholders(sep) == 0,
    ensures
        placeholders(join(parts, sep)) == placeholders_all(parts),
    decreases parts.len(),
{
    if parts.len() == 1 {
        assert(parts.drop_last() =~= Seq::<Seq<char>>::empty());
        assert(placeholders_all(parts.drop_last()) == 0);
        assert(placeholders_all(parts) == placeholders(parts[0]));
    } else if parts.len() > 1 {
        lemma_join(parts.drop_last(), sep);
        lemma_add3(join(parts.drop_last(), sep), sep, parts.last());
        assert(join(parts, sep) == join(parts.drop_last(), sep) + sep + parts.last());
        assert(placeholders_all(parts) == placeholders_all(parts.drop_last()) + placeholders(parts.last()));
    }
}

proof fn lemma_repeat(x: Seq<char>, n: nat)
    ensures
        placeholders_all(repeat_text(x, n)) == n * placeholders(x),
    decreases n,
{
    let p = placeholders(x);
    if n > 0 {
        assert(repeat_text(x, n).drop_last() =~= repeat_text(x, (n - 1) as nat));
        assert(repeat_text(x, n).last() == x);
        lemma_repeat(x, (n - 1) as nat);
        assert(placeholders_all(repeat_text(x, n)) == placeholders_all(repeat_text(x, (n - 1) as nat)) + p);
        assert((n - 1) * p + p == n * p) by (nonlinear_arith);
    } else {
        assert(repeat_text(x, n).len() == 0);
        assert(n * p == 0);
    }
}

proof fn lemma_to_sql_all_len(d: Column, op: Op, vals: Seq<JsonV>)
    requires
        to_sql_all(d, op, vals) is Ok,
    ensures
        to_sql_all(d, op, vals)->Ok_0.len() == vals.len(),
    decreases vals.len(),
{
    if vals.len() > 0 {
        lemma_to_sql_all_len(d, op, vals.drop_last());
    }
}

proof fn lemma_first_col(cols: Seq<Column>, name: Seq<char>)
    requires
        first_col(cols, name) is Some,
    ensures
        exists|i: int| 0 <= i < cols.len() && #[trigger] cols[i].name@ == name,
    decreases cols.len(),
{
    if cols[0].name@ != name {
        lemma_first_col(cols.drop_first(), name);
        let i = choose|i: int| 0 <= i < cols.drop_first().len() && #[trigger] cols.drop_first()[i].name@ == name;
        assert(cols[i + 1].name@ == name);
    }
}

proof fn lemma_first_belongs(b: Seq<BelongsTo>, table: Seq<char>)
    requires
        first_belongs(b, table) is Some,
    ensures
        exists|i: int| 0 <= i < b.len() && #[trigger] b[i] == first_belongs(b, table)->0,
        first_belongs(b, table)->0.table@ == table,
    decreases b.len(),
{
    if b[0].table@ != table {
        lemma_first_belongs(b.drop_first(), table);
        let i = choose|i: int| 0 <= i < b.drop_first().len() && #[trigger] b.drop_first()[i] == first_belongs(b, table)->0;
        assert(b[i + 1] == first_belongs(b, table)->0);
    }
}

/// A resolved column reference is written with one placeholder exactly when it
/// binds its JSON path.
proof fn lemma_col_expr(t: Table, reg: Registry, alias: Seq<char>, raw: Seq<char>, op: Op)
    requires
        names_plain(t, reg, alias),
        resolve_spec(t, reg, raw, op) is Ok,
        col_expr_spec(t, reg, alias, resolve_spec(t, reg, raw, op)->Ok_0, op) is Ok,
    ensures
        ({
            let c = resolve_spec(t, reg, raw, op)->Ok_0;
            let (expr, pre) = col_expr_spec(t, reg, alias, c, op)->Ok_0;
            &&& placeholders(expr) == pre.len()
            &&& pre.len() == (if c is Json { 1int } else { 0int })
        }),
{
    lemma_words();
    let c = resolve_spec(t, reg, raw, op)->Ok_0;
    match c {
        ColRefV::Base(n) => {
            lemma_first_col(t.columns@, n);
            let i = choose|i: int| 0 <= i < t.columns@.len() && #[trigger] t.columns@[i].name@ == n;
            assert(placeholders(t.columns@[i].name@) == 0);
            lemma_qi2(alias, n);
        },
        ColRefV::Related { table, column } => {
            let r = crate::text::trim(raw);
            let i = crate::text::first_index(r, '.')->0;
            let head = r.subrange(0, i);
            lemma_first_belongs(t.belongs_to@, head);
            let b = first_belongs(t.belongs_to@, head)->0;
            let j = choose|j: int| 0 <= j < t.belongs_to@.len() && #[trigger] t.belongs_to@[j] == b;
            assert(placeholders(t.belongs_to@[j].table@) == 0);
            let rt = reg.lookup(b.table@)->0;
            lemma_first_col(rt.columns@, column);
            let k = choose|k: int| 0 <= k < rt.columns@.len() && #[trigger] rt.columns@[k].name@ == column;
            assert(placeholders(rt.columns@[k].name@) == 0);
            lemma_qi2(table, column);
        },
        ColRefV::Json { column, path } => {
            let d = t.col(column)->0;
            lemma_first_col(t.columns@, column);
            let i = choose|i: int| 0 <= i < t.columns@.len() && #[trigger] t.columns@[i].name@ == column;
            assert(placeholders(t.columns@[i].name@) == 0);
            lemma_qi2(alias, column);
            if json_each_op(op) {
                lemma_add3("json_each("@, qi2(alias, column), ", ?)"@);
            } else {
                lemma_add3("json_extract("@, qi2(alias, column), ", ?)"@);
            }
        },
    }
}

/// One leaf binds exactly as many parameters as its SQL has placeholders.
proof fn lemma_leaf(t: Table, reg: Registry, alias: Seq<char>, l: LeafV)
    requires
        names_plain(t, reg, alias),
        leaf_sql(t, reg, alias, l) is Ok,
    ensures
        placeholders(leaf_sql(t, reg, alias, l)->Ok_0.0) == leaf_sql(t, reg, alias, l)->Ok_0.1.len(),
{
    lemma_words();
    lemma_col_expr(t, reg, alias, l.column, l.op);
    let c = resolve_spec(t, reg, l.column, l.op)->Ok_0;
    let d = crate::query::ast::coldef_spec(t, reg, c)->Ok_0;
    let (expr, pre) = col_expr_spec(t, reg, alias, c, l.op)->Ok_0;
    let (sql, ps) = leaf_tail(l.op, expr, d, l.values)->Ok_0;
    let k = placeholders(expr);
    let n = l.values.len();
    assert(leaf_sql(t, reg, alias, l)->Ok_0 == (sql, leaf_binds(l.op, pre, l.values, ps)));
    match l.op {
        Op::IsNull => {
            lemma_add(expr, " IS NULL"@);
        },
        Op::IsNotNull => {
            lemma_add(expr, " IS NOT NULL"@);
        },
        Op::JsonContains | Op::JsonHasAll => {
            lemma_add3("EXISTS (SELECT 1 FROM "@, expr, " je WHERE CAST(je.value AS TEXT) = ?)"@);
            assert(placeholders(exists_part(expr)) == k + 1);
            lemma_repeat(exists_part(expr), n);
            lemma_join(repeat_text(exists_part(expr), n), " AND "@);
            lemma_add3("("@, join(repeat_text(exists_part(expr), n), " AND "@), ")"@);
            assert(ps.len() == n);
            lemma_spread_len(pre, ps);
            assert(n * (k + 1) == ps.len() * (pre.len() + 1));
        },
        Op::JsonLike => {
            lemma_json_like_word();
            lemma_add3(
                "EXISTS (SELECT 1 FROM "@,
                expr,
                " je WHERE CAST(je.value AS TEXT) LIKE '%' || ? || '%')"@,
            );
        },
        Op::JsonLenGte => {
            lemma_add3("json_array_length("@, expr, ") >= ?"@);
        },
        Op::JsonEq => {
            lemma_add(expr, " = ?"@);
        },
        Op::In | Op::Nin => {
            let iv = in_values(l.values);
            if iv.len() == 0 {
                assert(leaf_binds(l.op, pre, l.values, ps) =~= Seq::<SqlV>::empty());
            } else {
                let ps2 = to_sql_all(d, l.op, iv)->Ok_0;
                lemma_to_sql_all_len(d, l.op, iv);
                let open = if l.op == Op::Nin {
                    " NOT IN ("@
                } else {
                    " IN ("@
                };
                let list = join(repeat_text("?"@, iv.len()), ", "@);
                lemma_repeat("?"@, iv.len());
                lemma_join(repeat_text("?"@, iv.len()), ", "@);
                lemma_add3(expr, open, list);
                lemma_add(expr + open + list, ")"@);
            }
        },
        Op::Between => {
            lemma_to_sql_all_len(d, l.op, l.values);
            lemma_add(expr, " BETWEEN ? AND ?"@);
        },
        _ => {
            lemma_add(expr, single_sql(l.op, expr).subrange(expr.len() as int, single_sql(l.op, expr).len() as int));
            assert(single_sql(l.op, expr) =~= expr + single_sql(l.op, expr).subrange(
                expr.len() as int,
                single_sql(l.op, expr).len() as int,
            ));
            assert(placeholders(single_sql(l.op, expr).subrange(expr.len() as int, single_sql(l.op, expr).len() as int)) == 1) by {
                match l.op {
                    Op::Eq => assert(single_sql(l.op, expr).subrange(expr.len() as int, single_sql(l.op, expr).len() as int) =~= " = ?"@),
                    Op::Ne => assert(single_sql(l.op, expr).subrange(expr.len() as int, single_sql(l.op, expr).len() as int) =~= " <> ?"@),
                    Op::Gt => assert(single_sql(l.op, expr).subrange(expr.len() as int, single_sql(l.op, expr).len() as int) =~= " > ?"@),
                    Op::Gte => assert(single_sql(l.op, expr).subrange(expr.len() as int, single_sql(l.op, expr).len() as int) =~= " >= ?"@),
                    Op::Lt => assert(single_sql(l.op, expr).subrange(expr.len() as int, single_sql(l.op, expr).len() as int) =~= " < ?"@),
                    Op::Lte => assert(single_sql(l.op, expr).subrange(expr.len() as int, single_sql(l.op, expr).len() as int) =~= " <= ?"@),
                    Op::Like => assert(single_sql(l.op, expr).subrange(expr.len() as int, single_sql(l.op, expr).len() as int) =~= " LIKE '%' || ? || '%'"@),
                    Op::NLike => assert(single_sql(l.op, expr).subrange(expr.len() as int, single_sql(l.op, expr).len() as int) =~= " NOT LIKE '%' || ? || '%'"@),
                    Op::Prefix => assert(single_sql(l.op, expr).subrange(expr.len() as int, single_sql(l.op, expr).len() as int) =~= " LIKE ? || '%'"@),
                    _ => assert(single_sql(l.op, expr).subrange(expr.len() as int, single_sql(l.op, expr).len() as int) =~= " LIKE '%' || ?"@),
                }
            }
        },
    }
    assert((pre + ps).len() == pre.len() + ps.len());
}

proof fn lemma_spread_len(pre: Seq<SqlV>, ps: Seq<SqlV>)
    ensures
        spread(pre, ps).len() == ps.len() * (pre.len() + 1),
    decreases ps.len(),
{
    if ps.len() > 0 {
        lemma_spread_len(pre, ps.drop_last());
        let m = ps.len();
        let k = pre.len();
        assert((m - 1) * (k + 1) + k + 1 == m * (k + 1)) by (nonlinear_arith);
    }
}

/// The conditions of a list bind as many parameters as their SQL texts have
/// placeholders.
proof fn lemma_conds(t: Table, reg: Registry, alias: Seq<char>, v: Seq<CondV>)
    requires
        names_plain(t, reg, alias),
        conds_sql(t, reg, alias, v) is Ok,
    ensures
        placeholders_all(conds_sql(t, reg, alias, v)->Ok_0.0) == conds_sql(t, reg, alias, v)->Ok_0.1.len(),
    decreases v,
{
    if v.len() > 0 {
        lemma_conds(t, reg, alias, v.drop_last());
        law_every_value_is_bound(t, reg, alias, v.last());
        let (parts, ps) = conds_sql(t, reg, alias, v.drop_last())->Ok_0;
        let (x, qs) = cond_sql(t, reg, alias, v.last())->Ok_0;
        assert(conds_sql(t, reg, alias, v)->Ok_0 == (parts.push(x), ps + qs));
        assert(parts.push(x).drop_last() =~= parts);
    }
}

/// Every value of a condition is bound: when no whitelisted name holds a `?`,
/// the SQL of the condition has exactly one placeholder per parameter it binds.
pub proof fn law_every_value_is_bound(t: Table, reg: Registry, alias: Seq<char>, c: CondV)
    requires
        names_plain(t, reg, alias),
        cond_sql(t, reg, alias, c) is Ok,
    ensures
        placeholders(cond_sql(t, reg, alias, c)->Ok_0.0) == cond_sql(t, reg, alias, c)->Ok_0.1.len(),
    decreases c,
{
    lemma_words();
    match c {
        CondV::Leaf(l) => {
            lemma_leaf(t, reg, alias, l);
        },
        CondV::And(v) => {
            lemma_conds(t, reg, alias, v);
            let parts = conds_sql(t, reg, alias, v)->Ok_0.0;
            if parts.len() > 0 {
                lemma_join(parts, " AND "@);
                lemma_add3("("@, join(parts, " AND "@), ")"@);
            } else {
                assert(parts =~= Seq::<Seq<char>>::empty());
            }
        },
        CondV::Or(v) => {
            lemma_conds(t, reg, alias, v);
            let parts = conds_sql(t, reg, alias, v)->Ok_0.0;
            if parts.len() > 0 {
                lemma_join(parts, " OR "@);
                lemma_add3("("@, join(parts, " OR "@), ")"@);
            } else {
                assert(parts =~= Seq::<Seq<char>>::empty());
            }
        },
        CondV::Not(b) => {
            law_every_value_is_bound(t, reg, alias, *b);
            let x = cond_sql(t, reg, alias, *b)->Ok_0.0;
            lemma_add3("(NOT "@, x, ")"@);
        },
    }
}

/// Two leaves that differ at most in their values, and not in how many values
/// their operator takes in (for `in`/`nin`, the elements of a single array).
pub open spec fn leaf_same_shape(a: LeafV, b: LeafV) -> bool {
    &&& a.column == b.column
    &&& a.op == b.op
    &&& if a.op == Op::In || a.op == Op::Nin {
        in_values(a.values).len() == in_values(b.values).len()
    } else {
        a.values.len() == b.values.len()
    }
}

/// Two conditions of the same tree whose leaves differ at most in their values.
pub open spec fn same_shape(a: CondV, b: CondV) -> bool
    decreases a,
{
    match (a, b) {
        (CondV::Leaf(x), CondV::Leaf(y)) => leaf_same_shape(x, y),
        (CondV::And(v), CondV::And(w)) => all_same_shape(v, w),
        (CondV::Or(v), CondV::Or(w)) => all_same_shape(v, w),
        (CondV::Not(x), CondV::Not(y)) => same_shape(*x, *y),
        _ => false,
    }
}

pub open spec fn all_same_shape(v: Seq<CondV>, w: Seq<CondV>) -> bool
    decreases v,
{
    if v.len() == 0 {
        w.len() == 0
    } else {
        w.len() == v.len() && all_same_shape(v.drop_last(), w.drop_last()) && same_shape(v.last(), w.last())
    }
}

proof fn lemma_leaf_text(t: Table, reg: Registry, alias: Seq<char>, a: LeafV, b: LeafV)
    requires
        leaf_same_shape(a, b),
        leaf_sql(t, reg, alias, a) is Ok,
        leaf_sql(t, reg, alias, b) is Ok,
    ensures
        leaf_sql(t, reg, alias, a)->Ok_0.0 == leaf_sql(t, reg, alias, b)->Ok_0.0,
{
}

proof fn lemma_conds_text(t: Table, reg: Registry, alias: Seq<char>, v: Seq<CondV>, w: Seq<CondV>)
    requires
        all_same_shape(v, w),
        conds_sql(t, reg, alias, v) is Ok,
        conds_sql(t, reg, alias, w) is Ok,
    ensures
        conds_sql(t, reg, alias, v)->Ok_0.0 == conds_sql(t, reg, alias, w)->Ok_0.0,
    decreases v,
{
    if v.len() > 0 {
        lemma_conds_text(t, reg, alias, v.drop_last(), w.drop_last());
        law_values_stay_out_of_text(t, reg, alias, v.last(), w.last());
    }
}

/// No value of a condition is written into its SQL: two conditions that differ
/// only in their values (and not in how many of them a leaf takes) give the
/// same text wherever both are accepted; only the bindings differ.
pub proof fn law_values_stay_out_of_text(t: Table, reg: Registry, alias: Seq<char>, a: CondV, b: CondV)
    requires
        same_shape(a, b),
        cond_sql(t, reg, alias, a) is Ok,
        cond_sql(t, reg, alias, b) is Ok,
    ensures
        cond_sql(t, reg, alias, a)->Ok_0.0 == cond_sql(t, reg, alias, b)->Ok_0.0,
    decreases a,
{
    match (a, b) {
        (CondV::Leaf(x), CondV::Leaf(y)) => {
            lemma_leaf_text(t, reg, alias, x, y);
        },
        (CondV::And(v), CondV::And(w)) => {
            lemma_conds_text(t, reg, alias, v, w);
        },
        (CondV::Or(v), CondV::Or(w)) => {
            lemma_conds_text(t, reg, alias, v, w);
        },
        (CondV::Not(x), CondV::Not(y)) => {
            law_values_stay_out_of_text(t, reg, alias, *x, *y);
        },
        _ => {},
    }
}

} // verus!
