use bcrm_backend::json::Json;
use bcrm_backend::query::ast::{render_cond, render_leaf, Cond, Leaf, Op};
use bcrm_backend::query::builder::{build_count, build_select, plain_json, require_polymorphic_keys, row_to_json, OutputCol};
use bcrm_backend::query::parse::{
    body_request, parse_agg, parse_group_key, parse_i64, parse_order_by, spec_from_body, spec_from_query, split_csv,
    truthy, unwrap_bracket, QuerySpec,
};
use bcrm_backend::query::where_dsl::{lex, parse, Tok};
use bcrm_backend::schema::{BelongsTo, Column, Registry, Table};
use bcrm_backend::value::SqlVal;

fn qcol(name: &str, ty: &str) -> Column {
    Column {
        name: name.to_string(),
        ty: ty.to_string(),
        sql_type: ty.to_string(),
        primary_key: name == "id",
        auto_increment: name == "id",
        not_null: name == "id",
        unique: false,
        enum_values: None,
        boolean: ty == "BOOLEAN",
        default: None,
        references: None,
        json: false,
    }
}

fn qtable(name: &str, columns: Vec<Column>) -> Table {
    Table {
        name: name.to_string(),
        group_code: "g".to_string(),
        group: "g".to_string(),
        primary_key: vec!["id".to_string()],
        unique_keys: vec![],
        foreign_keys: vec![],
        columns,
        indexes: vec![],
        belongs_to: vec![],
        has_many: vec![],
    }
}

fn crm() -> Registry {
    let mut tags = qcol("tags", "TEXT");
    tags.json = true;
    let mut customer = qtable(
        "customer",
        vec![qcol("id", "INTEGER"), qcol("name", "TEXT"), qcol("score", "REAL"), tags, qcol("org_id", "INTEGER")],
    );
    customer.belongs_to = vec![BelongsTo {
        table: "org".to_string(),
        column: "org_id".to_string(),
        ref_column: "id".to_string(),
        on_delete: None,
    }];
    let org = qtable("org", vec![qcol("id", "INTEGER"), qcol("name", "TEXT")]);
    let visit = qtable("visit", vec![qcol("id", "INTEGER"), qcol("entity_type", "TEXT"), qcol("entity_id", "INTEGER")]);
    Registry::from_tables(vec![customer, org, visit], vec![]).unwrap()
}

fn st(x: &str) -> Json {
    Json::Str(x.to_string())
}

#[test]
fn operators_by_suffix_and_name() {
    assert_eq!(Op::from_suffix("gte"), Some(Op::Gte));
    assert_eq!(Op::from_suffix("isnull"), Some(Op::IsNull));
    assert_eq!(Op::from_suffix("bogus"), None);
    assert_eq!(Op::Nin.name(), "nin");
    assert_eq!(Op::Between.arity(), (2, Some(2)));
    assert_eq!(Op::In.arity(), (1, None));
    assert!(Op::JsonEq.is_json());
    assert!(!Op::Eq.is_json());
}

#[test]
fn lexer_tokens() {
    let toks = lex("a = 1 and b != 'x' OR c >= 2.5").unwrap();
    assert_eq!(
        toks,
        vec![
            Tok::Ident("a".to_string()),
            Tok::Eq,
            Tok::Int(1),
            Tok::And,
            Tok::Ident("b".to_string()),
            Tok::Ne,
            Tok::Str("x".to_string()),
            Tok::Or,
            Tok::Ident("c".to_string()),
            Tok::Gte,
            Tok::Num("2.5".to_string()),
        ]
    );
    assert_eq!(lex("名称 = 1").unwrap()[0], Tok::Ident("名称".to_string()));
    assert_eq!(lex("a = 1; drop").unwrap_err().message, "where 表达式不允许分号");
    assert_eq!(lex("a = 'x").unwrap_err().message, "where 表达式中的字符串未闭合");
}

#[test]
fn where_text_renders_with_bound_values() {
    let reg = crm();
    let t = reg.table("customer").unwrap();
    let c = parse(t, &reg, "name = 'Bob' and score >= 3").unwrap();
    let mut ps: Vec<SqlVal> = Vec::new();
    let sql = render_cond(t, &reg, "customer", &c, &mut ps).unwrap();
    assert_eq!(sql, "(\"customer\".\"name\" = ? AND \"customer\".\"score\" >= ?)");
    assert_eq!(ps, vec![SqlVal::Text("Bob".to_string()), SqlVal::Real("3".to_string())]);
}

#[test]
fn where_text_refusals_show_the_token() {
    let reg = crm();
    let t = reg.table("customer").unwrap();
    let e = parse(t, &reg, "'a\"b' = 1").unwrap_err();
    assert_eq!(e.message, "where 表达式中期望列名，实际遇到: Some(Str(\"a\\\"b\"))");
    assert_eq!(parse(t, &reg, "  ").unwrap_err().message, "where 表达式为空");
}

#[test]
fn in_lists_render_one_placeholder_each() {
    let reg = crm();
    let t = reg.table("customer").unwrap();
    let c = Cond::Leaf(Leaf::new("id".to_string(), Op::In, vec![Json::Int(1), Json::Int(2)]));
    let mut ps: Vec<SqlVal> = Vec::new();
    assert_eq!(render_cond(t, &reg, "customer", &c, &mut ps).unwrap(), "\"customer\".\"id\" IN (?, ?)");
    assert_eq!(ps, vec![SqlVal::Integer(1), SqlVal::Integer(2)]);
    let empty = Cond::Leaf(Leaf::new("id".to_string(), Op::In, vec![Json::Array(vec![])]));
    let mut ps2: Vec<SqlVal> = Vec::new();
    assert_eq!(render_cond(t, &reg, "customer", &empty, &mut ps2).unwrap(), "1 = 0");
    assert!(ps2.is_empty());
}

#[test]
fn query_string_to_request() {
    let reg = crm();
    let t = reg.table("customer").unwrap();
    let spec = spec_from_query(t, &reg, Some("name=Bob%20Lee&page=2&page_size=10")).unwrap().unwrap();
    assert_eq!(spec.page, Some(2));
    assert_eq!(spec.page_size, Some(10));
    match &spec.cond {
        Some(Cond::Leaf(l)) => {
            assert_eq!(l.column, "name");
            assert_eq!(l.op, Op::Eq);
            assert_eq!(l.values, vec![st("Bob Lee")]);
        },
        other => panic!("unexpected {:?}", other),
    }
    assert_eq!(spec.effective_limit(), 10);
    assert_eq!(spec.effective_offset(), 10);
    let none = spec_from_query(t, &reg, None).unwrap().unwrap();
    assert!(none.cond.is_none());
    assert_eq!(none.effective_limit(), 20);
    let e = spec_from_query(t, &reg, Some("nosuch=1")).unwrap().unwrap_err();
    assert_eq!(e.code, 40004);
}

#[test]
fn query_string_with_an_unusable_aggregate() {
    let reg = crm();
    let t = reg.table("customer").unwrap();
    assert!(spec_from_query(t, &reg, Some("agg=count)(")).is_none());
    // an earlier refusal is answered before the aggregate is reached
    let e = spec_from_query(t, &reg, Some("page=x&agg=sum)a(")).unwrap().unwrap_err();
    assert_eq!(e.code, 40002);
    // so is a refusal of an earlier item of the same list
    let e = spec_from_query(t, &reg, Some("agg=bogus,sum)a(")).unwrap().unwrap_err();
    assert_eq!(e.code, 40002);
    assert!(spec_from_query(t, &reg, Some("agg=sum)a(&page=x")).is_none());
    let body = Json::Object(vec![
        ("page".to_string(), st("x")),
        ("aggregates".to_string(), Json::Array(vec![st("sum)a(")])),
    ]);
    assert_eq!(body_request(t, &reg, &body).unwrap().unwrap_err().code, 40002);
    let body2 = Json::Object(vec![("aggregates".to_string(), Json::Array(vec![st("sum)a(")]))]);
    assert!(body_request(t, &reg, &body2).is_none());
}

#[test]
fn body_to_request() {
    let reg = crm();
    let t = reg.table("customer").unwrap();
    let body = Json::Object(vec![
        ("page".to_string(), Json::Int(3)),
        (
            "where".to_string(),
            Json::Object(vec![
                ("op".to_string(), st("or")),
                (
                    "conditions".to_string(),
                    Json::Array(vec![
                        Json::Object(vec![("column".to_string(), st("name")), ("value".to_string(), st("a"))]),
                        Json::Object(vec![
                            ("column".to_string(), st("score")),
                            ("op".to_string(), st("gt")),
                            ("value".to_string(), Json::Int(1)),
                        ]),
                    ]),
                ),
            ]),
        ),
    ]);
    assert!(body_request(t, &reg, &body).is_some());
    let spec = spec_from_body(t, &reg, &body).unwrap();
    assert_eq!(spec.page, Some(3));
    match &spec.cond {
        Some(Cond::Or(v)) => assert_eq!(v.len(), 2),
        other => panic!("unexpected {:?}", other),
    }
    let e = spec_from_body(t, &reg, &Json::Array(vec![])).unwrap_err();
    assert_eq!(e.message, "请求体必须是 JSON 对象");
    let big = Json::Object(vec![("page_size".to_string(), Json::Int(500))]);
    assert_eq!(spec_from_body(t, &reg, &big).unwrap_err().message, "page_size 上限为 200");
}

#[test]
fn select_and_count_statements() {
    let reg = crm();
    let t = reg.table("customer").unwrap();
    let plan = build_select(t, &reg, &QuerySpec::default()).unwrap();
    assert_eq!(
        plan.sql,
        "SELECT \"customer\".\"id\", \"customer\".\"name\", \"customer\".\"score\", \"customer\".\"tags\", \"customer\".\"org_id\" FROM \"customer\" ORDER BY \"customer\".\"id\" ASC LIMIT ? OFFSET ?"
    );
    assert_eq!(plan.params, vec![SqlVal::Integer(20), SqlVal::Integer(0)]);
    assert_eq!(plan.outputs[1], OutputCol::Base("name".to_string()));
    let mut spec = QuerySpec::default();
    spec.cond = Some(Cond::Leaf(Leaf::new("name".to_string(), Op::Eq, vec![st("Bob")])));
    let (sql, ps) = build_count(t, &reg, &spec).unwrap();
    assert_eq!(sql, "SELECT count(*) FROM \"customer\" WHERE \"customer\".\"name\" = ?");
    assert_eq!(ps, vec![SqlVal::Text("Bob".to_string())]);
}

#[test]
fn rows_become_objects() {
    let reg = crm();
    let t = reg.table("customer").unwrap();
    let plan = build_select(t, &reg, &QuerySpec::default()).unwrap();
    let row = vec![
        SqlVal::Integer(1),
        SqlVal::Text("Bob".to_string()),
        SqlVal::Real("2.5".to_string()),
        SqlVal::Text("[1,2]".to_string()),
        SqlVal::Null,
    ];
    let obj = row_to_json(&row, &plan, t, &reg, false).unwrap();
    assert_eq!(
        obj,
        Json::Object(vec![
            ("id".to_string(), Json::Int(1)),
            ("name".to_string(), st("Bob")),
            ("score".to_string(), Json::Num("2.5".to_string())),
            ("tags".to_string(), Json::Array(vec![Json::Int(1), Json::Int(2)])),
            ("org_id".to_string(), Json::Null),
        ])
    );
    let raw = row_to_json(&row, &plan, t, &reg, true).unwrap();
    let Json::Object(m) = raw else { panic!("object") };
    assert_eq!(m[3].1, st("[1,2]"));
    assert_eq!(plain_json(SqlVal::Blob), Json::Null);
}

#[test]
fn small_query_helpers() {
    assert!(truthy(" Yes "));
    assert!(!truthy("2"));
    assert_eq!(parse_i64(" 12 ", "page").unwrap(), 12);
    assert_eq!(parse_i64("x", "page").unwrap_err().message, "page 必须是整数，收到: x");
    assert_eq!(split_csv(" a, ,b ,"), vec!["a".to_string(), "b".to_string()]);
    assert_eq!(unwrap_bracket("filter[name]", "filter"), Some("name".to_string()));
    assert_eq!(unwrap_bracket("filter[name", "filter"), None);
    assert_eq!(parse_group_key("0][name]"), (0, "name".to_string()));
    assert_eq!(parse_group_key("[2][score]"), (2, "score".to_string()));
    assert_eq!(parse_group_key("name]"), (0, "name".to_string()));
}

#[test]
fn order_and_aggregate_lists() {
    let reg = crm();
    let t = reg.table("customer").unwrap();
    let ob = parse_order_by(t, &reg, &vec!["-score,name:ASC_NULLS_LAST".to_string()]).unwrap();
    assert_eq!(ob.len(), 2);
    assert_eq!((ob[0].column.as_str(), ob[0].direction.as_str(), ob[0].nulls_last), ("score", "DESC", false));
    assert_eq!((ob[1].column.as_str(), ob[1].direction.as_str(), ob[1].nulls_last), ("name", "ASC", true));
    assert_eq!(parse_order_by(t, &reg, &vec!["name:up".to_string()]).unwrap_err().message, "非法排序方向: up");
    let aggs = parse_agg(t, &reg, "count(*):n, SUM(score)").unwrap();
    assert_eq!(aggs.len(), 2);
    assert_eq!((aggs[0].func.as_str(), aggs[0].column.clone(), aggs[0].alias.as_str()), ("count", None, "n"));
    assert_eq!(
        (aggs[1].func.as_str(), aggs[1].column.clone(), aggs[1].alias.as_str()),
        ("sum", Some("score".to_string()), "sum_score")
    );
    assert_eq!(
        parse_agg(t, &reg, "median(score)").unwrap_err().message,
        "不支持的聚合函数 median，可用: count/count_distinct/sum/avg/min/max"
    );
}

#[test]
fn polymorphic_tables_need_both_keys() {
    let reg = crm();
    let v = reg.table("visit").unwrap();
    let e = require_polymorphic_keys(v, &vec![("entity_type".to_string(), st("c"))]).unwrap_err();
    assert_eq!(e.message, "表 visit 是多态表，必须同时提供 entity_type 与 entity_id");
    assert!(require_polymorphic_keys(v, &vec![("entity_type".to_string(), st("c")), ("entity_id".to_string(), Json::Int(1))]).is_ok());
    let c = reg.table("customer").unwrap();
    assert!(require_polymorphic_keys(c, &vec![]).is_ok());
}

#[test]
fn every_value_of_a_condition_is_bound() {
    let reg = crm();
    let t = reg.table("customer").unwrap();
    let c = Cond::Or(vec![
        Cond::Leaf(Leaf::new("tags.level".to_string(), Op::JsonEq, vec![st("gold")])),
        Cond::Not(Box::new(Cond::And(vec![
            Cond::Leaf(Leaf::new("org.name".to_string(), Op::Like, vec![st("acme")])),
            Cond::Leaf(Leaf::new("score".to_string(), Op::Between, vec![Json::Int(1), Json::Int(5)])),
            Cond::Leaf(Leaf::new("tags".to_string(), Op::JsonContains, vec![st("vip")])),
        ]))),
        Cond::Leaf(Leaf::new("id".to_string(), Op::In, vec![Json::Int(7), Json::Int(8), Json::Int(9)])),
    ]);
    let mut ps: Vec<SqlVal> = Vec::new();
    let sql = render_cond(t, &reg, "customer", &c, &mut ps).unwrap();
    assert_eq!(sql.matches('?').count(), ps.len());
    assert_eq!(ps.len(), 10);
}

#[test]
fn values_never_enter_the_sql_text() {
    let reg = crm();
    let t = reg.table("customer").unwrap();
    let make = |name: &str, ids: Vec<Json>| {
        Cond::And(vec![
            Cond::Leaf(Leaf::new("name".to_string(), Op::Eq, vec![st(name)])),
            Cond::Leaf(Leaf::new("id".to_string(), Op::In, ids)),
        ])
    };
    let mut p1: Vec<SqlVal> = Vec::new();
    let mut p2: Vec<SqlVal> = Vec::new();
    let s1 = render_cond(t, &reg, "customer", &make("x' OR 1=1 --", vec![Json::Int(1), Json::Int(2)]), &mut p1).unwrap();
    let s2 = render_cond(t, &reg, "customer", &make("Bob", vec![Json::Int(5), Json::Int(6)]), &mut p2).unwrap();
    assert_eq!(s1, s2);
    assert!(!s1.contains("OR 1=1"));
    assert_eq!(p1[0], SqlVal::Text("x' OR 1=1 --".to_string()));
    assert_ne!(p1, p2);
}

#[test]
fn the_count_has_the_conditions_of_the_list() {
    let reg = crm();
    let t = reg.table("customer").unwrap();
    let mut spec = QuerySpec::default();
    spec.cond = Some(Cond::And(vec![
        Cond::Leaf(Leaf::new("org.name".to_string(), Op::Like, vec![st("acme")])),
        Cond::Leaf(Leaf::new("score".to_string(), Op::Gte, vec![Json::Int(3)])),
    ]));
    let plan = build_select(t, &reg, &spec).unwrap();
    let (count, cps) = build_count(t, &reg, &spec).unwrap();
    let body = count.strip_prefix("SELECT count(*) FROM ").unwrap();
    assert!(plan.sql.contains(&format!(" FROM {}", body)));
    assert!(body.contains("JOIN"));
    assert_eq!(cps.len(), 2);
    assert_eq!(plan.params[..cps.len()], cps[..]);
    assert_eq!(plan.params.len(), 4);
}

#[test]
fn json_path_leaves_bind_the_path_for_each_placeholder() {
    let reg = crm();
    let t = reg.table("customer").unwrap();
    let all = Cond::Leaf(Leaf::new("tags.labels".to_string(), Op::JsonHasAll, vec![st("a"), st("b")]));
    let mut ps: Vec<SqlVal> = Vec::new();
    let sql = render_cond(t, &reg, "customer", &all, &mut ps).unwrap();
    assert_eq!(sql.matches('?').count(), ps.len());
    assert_eq!(
        ps,
        vec![
            SqlVal::Text("$.labels".to_string()),
            SqlVal::Text("a".to_string()),
            SqlVal::Text("$.labels".to_string()),
            SqlVal::Text("b".to_string()),
        ]
    );
    let none = Cond::Leaf(Leaf::new("tags.level".to_string(), Op::In, vec![Json::Array(vec![])]));
    let mut ps2: Vec<SqlVal> = Vec::new();
    assert_eq!(render_cond(t, &reg, "customer", &none, &mut ps2).unwrap(), "1 = 0");
    assert!(ps2.is_empty());
}

#[test]
fn a_refused_leaf_binds_nothing() {
    let reg = crm();
    let t = reg.table("customer").unwrap();
    let mut ps: Vec<SqlVal> = vec![SqlVal::Integer(1)];
    let bad = Leaf::new("tags.level".to_string(), Op::Between, vec![Json::Int(1)]);
    assert_eq!(render_leaf(t, &reg, "customer", &bad, &mut ps).unwrap_err().code, 40002);
    let unknown = Leaf::new("nope".to_string(), Op::Eq, vec![Json::Int(1)]);
    assert!(render_leaf(t, &reg, "customer", &unknown, &mut ps).is_err());
    assert_eq!(ps, vec![SqlVal::Integer(1)]);
}

#[test]
fn every_text_column_is_searched() {
    let mut code = qcol("code", "TEXT");
    code.primary_key = true;
    let mut t = qtable("tag", vec![code, qcol("title", "TEXT"), qcol("n", "INTEGER")]);
    t.primary_key = vec!["code".to_string()];
    assert_eq!(t.searchable_columns(), vec!["code".to_string(), "title".to_string()]);
}

#[test]
fn operator_names_read_back_in_any_case() {
    let all = [
        Op::Eq, Op::Ne, Op::Gt, Op::Gte, Op::Lt, Op::Lte, Op::Like, Op::NLike, Op::Prefix, Op::Suffix, Op::In, Op::Nin,
        Op::Between, Op::IsNull, Op::IsNotNull, Op::JsonContains, Op::JsonHasAll, Op::JsonEq, Op::JsonLike, Op::JsonLenGte,
    ];
    for op in all {
        assert_eq!(Op::from_suffix(op.name()), Some(op));
        assert_eq!(Op::from_suffix(&op.name().to_ascii_uppercase()), Some(op));
        assert_eq!(op.is_json(), op.name().starts_with("json_"));
    }
}

#[test]
fn logic_or_joins_the_filters() {
    let reg = Registry::from_tables(
        vec![qtable("note", vec![qcol("id", "INTEGER"), qcol("title", "TEXT"), qcol("body", "TEXT")])],
        vec![],
    )
    .unwrap();
    let t = reg.table("note").unwrap();
    let leaves = |v: &Vec<Cond>| {
        assert_eq!(v.len(), 2);
        for (c, (col, val)) in v.iter().zip([("title", "x"), ("body", "y")]) {
            match c {
                Cond::Leaf(l) => {
                    assert_eq!(l.column, col);
                    assert_eq!(l.op, Op::Eq);
                    assert_eq!(l.values, vec![st(val)]);
                },
                other => panic!("unexpected {:?}", other),
            }
        }
    };
    let s1 = spec_from_query(t, &reg, Some("title=x&body=y")).unwrap().unwrap();
    match &s1.cond {
        Some(Cond::And(v)) => leaves(v),
        other => panic!("unexpected {:?}", other),
    }
    let s2 = spec_from_query(t, &reg, Some("title=x&body=y&logic=or")).unwrap().unwrap();
    match &s2.cond {
        Some(Cond::Or(v)) => leaves(v),
        other => panic!("unexpected {:?}", other),
    }
}

#[test]
fn where_decimals_are_numbers() {
    let toks = lex("a = 007.5 or b = 1. or c = -00.25").unwrap();
    assert_eq!(toks[2], Tok::Num("7.5".to_string()));
    assert_eq!(toks[6], Tok::Num("1.0".to_string()));
    assert_eq!(toks[10], Tok::Num("-0.25".to_string()));
    let reg = crm();
    let t = reg.table("customer").unwrap();
    let c = parse(t, &reg, "name like 1.50").unwrap();
    let mut ps: Vec<SqlVal> = Vec::new();
    render_cond(t, &reg, "customer", &c, &mut ps).unwrap();
    assert_eq!(ps, vec![SqlVal::Text("1.5".to_string())]);
    let e = parse(t, &reg, "1.50 = name").unwrap_err();
    assert_eq!(e.message, "where 表达式中期望列名，实际遇到: Some(Num(1.5))");
}
