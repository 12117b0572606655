use bcrm_backend::crud::{
    attach_children, attach_targets, children_plan, list_answer, child_row, children_sql, parent_ids, batch_item_plan, batch_request, collect_writes, cond_to_parts, default_order, eq_cond, insert_plan, insert_sql, ok,
    page_count, parse_id, single_row_spec, update_plan, upsert_plan, BatchOutcome, ContextParams,
};
use bcrm_backend::error::ApiError;
use bcrm_backend::json::{parse_json, to_json_text, Json};
use bcrm_backend::query::ast::{Cond, Op};
use bcrm_backend::query::parse::QuerySpec;
use bcrm_backend::schema::{Column, HasMany, Registry, Table};
use bcrm_backend::value::{body_to_object, json_to_sql, normalize_direction, sql_to_json, SqlVal};

fn ccol(name: &str, ty: &str) -> Column {
    Column {
        name: name.to_string(),
        ty: ty.to_string(),
        sql_type: ty.to_string(),
        primary_key: false,
        auto_increment: false,
        not_null: false,
        unique: false,
        enum_values: None,
        boolean: ty == "BOOLEAN",
        default: None,
        references: None,
        json: false,
    }
}

fn people() -> Table {
    let mut id = ccol("id", "INTEGER");
    id.primary_key = true;
    id.auto_increment = true;
    id.not_null = true;
    let mut code = ccol("code", "TEXT");
    code.not_null = true;
    let mut level = ccol("level", "TEXT");
    level.enum_values = Some(vec!["A".to_string(), "B".to_string()]);
    let mut meta = ccol("meta", "TEXT");
    meta.json = true;
    let mut status = ccol("status", "TEXT");
    status.not_null = true;
    status.default = Some("'new'".to_string());
    Table {
        name: "person".to_string(),
        group_code: "p".to_string(),
        group: "p".to_string(),
        primary_key: vec!["id".to_string()],
        unique_keys: vec![vec!["code".to_string()]],
        foreign_keys: vec![],
        columns: vec![id, code, level, ccol("age", "INTEGER"), ccol("score", "REAL"), ccol("vip", "BOOLEAN"), meta, status, ccol("updated_at", "TEXT")],
        indexes: vec![],
        belongs_to: vec![],
        has_many: vec![],
    }
}

fn members(v: Vec<(&str, Json)>) -> Vec<(String, Json)> {
    v.into_iter().map(|(k, x)| (k.to_string(), x)).collect()
}

fn text(x: &str) -> Json {
    Json::Str(x.to_string())
}

#[test]
fn envelope_and_pages() {
    assert_eq!(
        ok(Json::Int(1)),
        Json::Object(members(vec![("code", Json::Int(0)), ("message", text("ok")), ("data", Json::Int(1))]))
    );
    assert_eq!(page_count(0, 20), 0);
    assert_eq!(page_count(41, 20), 3);
    assert_eq!(page_count(40, 20), 2);
    assert_eq!(page_count(5, 0), 0);
    assert_eq!(page_count(-50, 20), -1);
    assert_eq!(page_count(-5, 20), 0);
}

#[test]
fn writes_are_checked_against_the_whitelist() {
    let t = people();
    let w = collect_writes(&t, &members(vec![("id", Json::Int(9)), ("code", text("c1")), ("age", text(" 42 "))]), true).unwrap();
    assert_eq!(w, vec![("code".to_string(), SqlVal::Text("c1".to_string())), ("age".to_string(), SqlVal::Integer(42))]);
    let e = collect_writes(&t, &members(vec![("nosuch", Json::Int(1))]), true).unwrap_err();
    assert_eq!(e.code, 40004);
    assert_eq!(e.message, "表 person 上不存在列 nosuch");
    let e = collect_writes(&t, &members(vec![("age", text("x")), ("level", text("C"))]), true).unwrap_err();
    assert_eq!(e.code, 40001);
    assert_eq!(e.errors.len(), 2);
    assert_eq!(e.errors[0].field, "age");
    assert_eq!(e.errors[0].reason, "类型不匹配，期望 INTEGER");
    assert_eq!(e.errors[1].reason, "取值不在枚举内");
    let e = collect_writes(&t, &members(vec![("age", Json::Int(1))]), true).unwrap_err();
    assert_eq!(e.errors.len(), 1);
    assert_eq!(e.errors[0].field, "code");
    assert_eq!(e.errors[0].reason, "必填字段缺失");
    let e = collect_writes(&t, &members(vec![("id", Json::Int(1))]), false).unwrap_err();
    assert_eq!(e.message, "请求体为空，没有任何字段需要更新");
    let e = collect_writes(&t, &members(vec![("meta", text("{oops"))]), false).unwrap_err();
    assert_eq!(e.code, 40003);
}

#[test]
fn insert_and_upsert_statements() {
    let t = people();
    let cols = vec!["code".to_string(), "age".to_string()];
    assert_eq!(insert_sql(&t, &cols, None), "INSERT INTO \"person\" (\"code\", \"age\") VALUES (?, ?)");
    let conflict = vec!["code".to_string()];
    assert_eq!(
        insert_sql(&t, &cols, Some(&conflict)),
        "INSERT INTO \"person\" (\"code\", \"age\") VALUES (?, ?) ON CONFLICT (\"code\") DO UPDATE SET \"age\" = excluded.\"age\""
    );
    assert_eq!(
        insert_sql(&t, &conflict, Some(&conflict)),
        "INSERT INTO \"person\" (\"code\") VALUES (?) ON CONFLICT (\"code\") DO NOTHING"
    );
    let (sql, ps) = insert_plan(&t, &Json::Object(members(vec![("code", text("c"))]))).unwrap();
    assert_eq!(sql, "INSERT INTO \"person\" (\"code\") VALUES (?)");
    assert_eq!(ps, vec![SqlVal::Text("c".to_string())]);
    assert_eq!(insert_plan(&t, &Json::Null).unwrap_err().message, "请求体必须是 JSON 对象");
}

#[test]
fn upsert_requests() {
    let t = people();
    let body = Json::Object(members(vec![("conflictBy", text("code")), ("code", text("c")), ("age", Json::Int(3))]));
    let (sql, ps) = upsert_plan(&t, &body).unwrap();
    assert_eq!(
        sql,
        "INSERT INTO \"person\" (\"code\", \"age\") VALUES (?, ?) ON CONFLICT (\"code\") DO UPDATE SET \"age\" = excluded.\"age\""
    );
    assert_eq!(ps, vec![SqlVal::Text("c".to_string()), SqlVal::Integer(3)]);
    let none = Json::Object(members(vec![("code", text("c"))]));
    assert_eq!(upsert_plan(&t, &none).unwrap_err().message, "upsert 需要 conflictBy（指定唯一键列）");
    let wrong = Json::Object(members(vec![("conflictBy", Json::Array(vec![text("age")])), ("age", Json::Int(1))]));
    assert_eq!(upsert_plan(&t, &wrong).unwrap_err().message, "conflictBy age 不是表 person 已声明的唯一键，可用: code");
    let missing = Json::Object(members(vec![("conflictBy", text("code")), ("age", Json::Int(1))]));
    assert_eq!(upsert_plan(&t, &missing).unwrap_err().message, "upsert 缺少唯一键字段 code");
}

#[test]
fn updates_partial_and_whole() {
    let t = people();
    let body = Json::Object(members(vec![("age", Json::Int(5))]));
    let (sql, ps) = update_plan(&t, &body, "\"id\" = ?", vec![SqlVal::Integer(1)], false).unwrap();
    assert_eq!(sql, "UPDATE \"person\" SET \"age\" = ?, \"updated_at\" = datetime('now','localtime') WHERE \"id\" = ?");
    assert_eq!(ps, vec![SqlVal::Integer(5), SqlVal::Integer(1)]);
    let (sql2, ps2) = update_plan(&t, &body, "\"id\" = ?", vec![SqlVal::Integer(1)], true).unwrap();
    assert_eq!(
        sql2,
        "UPDATE \"person\" SET \"age\" = ?, \"level\" = ?, \"score\" = ?, \"vip\" = ?, \"meta\" = ?, \"updated_at\" = ? WHERE \"id\" = ?"
    );
    assert_eq!(ps2.len(), 7);
    assert_eq!(ps2[1], SqlVal::Null);
}

#[test]
fn batch_inserts() {
    let t = people();
    let body = Json::Object(members(vec![("items", Json::Array(vec![Json::Object(members(vec![("code", text("a"))])), Json::Int(1)])), ("mode", text("relaxed"))]));
    let (items, strict) = batch_request(&body).unwrap();
    assert_eq!(items.len(), 2);
    assert!(!strict);
    let e = batch_item_plan(&t, 1, &items[1]).unwrap_err();
    assert_eq!(e.message, "items[1] 不是对象");
    let mut out = BatchOutcome::new();
    out.record_insert(10);
    assert!(out.on_failure(false, 1, e).is_none());
    assert!(out.on_failure(true, 2, ApiError::param("x")).is_some());
    assert_eq!(
        out.to_json(),
        Json::Object(members(vec![
            ("inserted", Json::Int(1)),
            ("ids", Json::Array(vec![Json::Int(10)])),
            ("failed", Json::Array(vec![Json::Object(members(vec![("index", Json::Int(1)), ("error", text("items[1] 不是对象"))]))])),
        ]))
    );
    assert_eq!(batch_request(&Json::Object(vec![])).unwrap_err().message, "请求体需要 { \"items\": [ ... ] }");
    assert_eq!(batch_request(&Json::Object(members(vec![("items", Json::Array(vec![]))]))).unwrap_err().message, "items 为空");
    let many: Vec<Json> = (0..1001).map(Json::Int).collect();
    assert_eq!(
        batch_request(&Json::Object(members(vec![("items", Json::Array(many))]))).unwrap_err().message,
        "批量上限 1000 行，收到 1001"
    );
}

#[test]
fn ids_in_paths_read_back() {
    assert_eq!(parse_id("42").unwrap(), 42);
    assert_eq!(parse_id("-7").unwrap(), -7);
    assert_eq!(parse_id("9223372036854775808").unwrap_err().message, "主键必须是整数: 9223372036854775808");
    for id in [0i64, 1, -1, 123456789, i64::MAX, i64::MIN] {
        assert_eq!(parse_id(&id.to_string()).unwrap(), id);
    }
}

#[test]
fn key_order_and_single_rows() {
    let t = people();
    let ob = default_order(&t);
    assert_eq!(ob.len(), 1);
    assert_eq!((ob[0].column.as_str(), ob[0].direction.as_str(), ob[0].nulls_last), ("id", "ASC", false));
    let mut spec = QuerySpec::default();
    spec.page = Some(4);
    spec.count_only = true;
    let one = single_row_spec(&spec);
    assert_eq!((one.page, one.page_size, one.count_only), (Some(1), Some(1), false));
}

#[test]
fn equality_conditions() {
    let t = people();
    let reg = Registry::from_tables(vec![people()], vec![]).unwrap();
    let c = eq_cond(&t, "code", text("c")).unwrap();
    let (w, ps) = cond_to_parts(&t, &reg, Some(c), ContextParams).unwrap();
    assert_eq!(w, "\"person\".\"code\" = ?");
    assert_eq!(ps, vec![SqlVal::Text("c".to_string())]);
    let (w0, ps0) = cond_to_parts(&t, &reg, None, ContextParams).unwrap();
    assert_eq!(w0, "1 = 1");
    assert!(ps0.is_empty());
    let e = eq_cond(&t, "nosuch", Json::Null).unwrap_err();
    assert_eq!(e.message, "表 person 上不存在列 nosuch");
    let _ = Cond::Leaf(bcrm_backend::query::ast::Leaf::new("code".to_string(), Op::Eq, vec![]));
}

#[test]
fn values_by_column_type() {
    let t = people();
    let col = |n: &str| t.column(n).unwrap();
    assert_eq!(json_to_sql(col("vip"), &text("TRUE")).unwrap(), SqlVal::Integer(1));
    assert_eq!(json_to_sql(col("vip"), &Json::Int(0)).unwrap(), SqlVal::Integer(0));
    assert_eq!(json_to_sql(col("score"), &Json::Int(3)).unwrap(), SqlVal::Real("3".to_string()));
    assert_eq!(json_to_sql(col("score"), &text(" 2.5 ")).unwrap(), SqlVal::Real("2.5".to_string()));
    assert_eq!(json_to_sql(col("code"), &Json::Bool(true)).unwrap(), SqlVal::Text("1".to_string()));
    assert_eq!(json_to_sql(col("code"), &Json::Null).unwrap_err().errors[0].reason, "必填字段不可为空");
    assert_eq!(json_to_sql(col("meta"), &text("{\"a\":1}")).unwrap(), SqlVal::Text("{\"a\":1}".to_string()));
    assert_eq!(
        sql_to_json(col("meta"), SqlVal::Text("{\"a\":1}".to_string()), false),
        Json::Object(members(vec![("a", Json::Int(1))]))
    );
    assert_eq!(sql_to_json(col("meta"), SqlVal::Text("{\"a\":1}".to_string()), true), text("{\"a\":1}"));
    assert_eq!(sql_to_json(col("meta"), SqlVal::Text("nope".to_string()), false), text("nope"));
    assert_eq!(sql_to_json(col("age"), SqlVal::Integer(4), false), Json::Int(4));
}

#[test]
fn a_write_reads_back() {
    let t = people();
    let age = t.column("age").unwrap();
    for i in [0i64, -3, i64::MAX] {
        let stored = json_to_sql(age, &Json::Int(i)).unwrap();
        assert_eq!(sql_to_json(age, stored, false), Json::Int(i));
    }
    let score = t.column("score").unwrap();
    let stored = json_to_sql(score, &Json::Num("1.25".to_string())).unwrap();
    assert_eq!(sql_to_json(score, stored, false), Json::Num("1.25".to_string()));
    let meta = t.column("meta").unwrap();
    let stored = json_to_sql(meta, &text("[true,null]")).unwrap();
    assert_eq!(sql_to_json(meta, stored, false), Json::Array(vec![Json::Bool(true), Json::Null]));
}

#[test]
fn sort_directions() {
    assert_eq!(normalize_direction("desc").unwrap(), ("DESC", false));
    assert_eq!(normalize_direction("Asc_Nulls_Last").unwrap(), ("ASC", true));
    assert_eq!(normalize_direction("DESC_NULLS_FIRST").unwrap(), ("DESC", false));
    assert_eq!(normalize_direction("Up").unwrap_err().message, "非法排序方向: up");
    assert_eq!(normalize_direction("up").unwrap_err().message, normalize_direction("UP").unwrap_err().message);
}

#[test]
fn json_text_both_ways() {
    let v = parse_json("{\"a\": [1, 2.5, \"x\\\"y\"], \"b\": null}").unwrap();
    assert_eq!(
        v,
        Json::Object(members(vec![
            ("a", Json::Array(vec![Json::Int(1), Json::Num("2.5".to_string()), text("x\"y")])),
            ("b", Json::Null),
        ]))
    );
    assert_eq!(to_json_text(&v), "{\"a\":[1,2.5,\"x\\\"y\"],\"b\":null}");
    assert!(parse_json("{").is_none());
    assert!(body_to_object(&Json::Int(1)).is_err());
}

#[test]
fn child_rows_of_a_listing() {
    let mut kid_link = ccol("person_id", "INTEGER");
    kid_link.not_null = true;
    let kid = Table {
        name: "kid".to_string(),
        group_code: "p".to_string(),
        group: "p".to_string(),
        primary_key: vec!["id".to_string()],
        unique_keys: vec![],
        foreign_keys: vec![],
        columns: vec![ccol("id", "INTEGER"), kid_link, ccol("nick", "TEXT")],
        indexes: vec![],
        belongs_to: vec![],
        has_many: vec![],
    };
    assert_eq!(
        children_sql(&kid, "person_id", 2),
        "SELECT * FROM \"kid\" WHERE \"person_id\" IN (?, ?) ORDER BY \"id\" ASC"
    );
    let mut items = vec![
        Json::Object(members(vec![("id", Json::Int(1))])),
        Json::Object(members(vec![("id", text("x"))])),
        Json::Object(members(vec![("id", Json::Int(2))])),
    ];
    assert_eq!(parent_ids(&items, "id"), vec![1, 2]);
    let r1 = child_row(&kid, "person_id", vec![SqlVal::Integer(10), SqlVal::Integer(2), SqlVal::Text("a".to_string())], false);
    let r2 = child_row(&kid, "person_id", vec![SqlVal::Integer(11), SqlVal::Null, SqlVal::Null], false);
    assert_eq!(r1.0, Some(2));
    assert_eq!(r2.0, None);
    assert_eq!(
        r1.1,
        Json::Object(members(vec![("id", Json::Int(10)), ("person_id", Json::Int(2)), ("nick", text("a"))]))
    );
    let rows = vec![r1, r2];
    attach_children(&mut items, "id", "kid", &rows);
    assert_eq!(items[0], Json::Object(members(vec![("id", Json::Int(1)), ("kid", Json::Array(vec![]))])));
    assert_eq!(items[1], Json::Object(members(vec![("id", text("x")), ("kid", Json::Array(vec![]))])));
    let Json::Object(m) = &items[2] else { panic!("object") };
    let Json::Array(kids) = &m[1].1 else { panic!("array") };
    assert_eq!(kids.len(), 1);
}

#[test]
fn json_numbers_that_fit_i64_become_integers() {
    assert_eq!(parse_json("-42"), Some(Json::Int(-42)));
    assert_eq!(parse_json("9223372036854775807"), Some(Json::Int(i64::MAX)));
    assert_eq!(parse_json("9223372036854775808"), Some(Json::Num("9223372036854775808".to_string())));
    assert_eq!(parse_json("1e2"), Some(Json::Num("100.0".to_string())));
    assert_eq!(parse_json("-0"), Some(Json::Num("-0.0".to_string())));
    assert_eq!(
        parse_json("{\"k\": [7, {\"n\": 2.0}]}"),
        Some(Json::Object(members(vec![(
            "k",
            Json::Array(vec![Json::Int(7), Json::Object(members(vec![("n", Json::Num("2.0".to_string()))]))])
        )])))
    );
}

#[test]
fn children_are_planned_only_for_linked_tables() {
    let mut parent = people();
    parent.has_many = vec![HasMany { table: "kid".to_string(), column: "person_id".to_string(), on_delete: None }];
    let kid = Table {
        name: "kid".to_string(),
        group_code: "p".to_string(),
        group: "p".to_string(),
        primary_key: vec!["id".to_string()],
        unique_keys: vec![],
        foreign_keys: vec![],
        columns: vec![ccol("id", "INTEGER"), ccol("person_id", "INTEGER")],
        indexes: vec![],
        belongs_to: vec![],
        has_many: vec![],
    };
    let reg = Registry::from_tables(vec![parent, kid], vec![]).unwrap();
    let t = reg.table("person").unwrap();
    let (ct, link, sql, ps) = children_plan(t, &reg, "kid", &vec![3, 4]).unwrap();
    assert_eq!(ct.name, "kid");
    assert_eq!(link, "person_id");
    assert_eq!(sql, "SELECT * FROM \"kid\" WHERE \"person_id\" IN (?, ?) ORDER BY \"id\" ASC");
    assert_eq!(ps, vec![SqlVal::Integer(3), SqlVal::Integer(4)]);
    let e = children_plan(t, &reg, "person", &vec![3]).unwrap_err();
    assert_eq!(e.code, 40002);
    assert_eq!(e.message, "表 person 不存在子表 person，可用: kid");

    let mut spec = QuerySpec::default();
    let items = vec![Json::Object(members(vec![("id", Json::Int(5))]))];
    assert!(attach_targets(t, &spec, &items).is_none());
    spec.children = vec!["kid".to_string()];
    assert_eq!(attach_targets(t, &spec, &items), Some(("id".to_string(), vec![5])));
    assert!(attach_targets(t, &spec, &vec![]).is_none());

    spec.count_only = true;
    let a = list_answer(&spec, items, 41);
    assert_eq!(to_json_text(&a), "{\"items\":[],\"page\":1,\"page_count\":3,\"page_size\":20,\"total\":41}");
}

#[test]
fn json_text_is_what_serde_json_writes() {
    let v = Json::Object(members(vec![("b", Json::Int(1)), ("a", text("x\n\u{1}")), ("c", Json::Num("2.50".to_string()))]));
    assert_eq!(to_json_text(&v), "{\"a\":\"x\\n\\u0001\",\"b\":1,\"c\":2.5}");
}
