use bcrm_backend::crud::ContextParams;
use bcrm_backend::json::Json;
use bcrm_backend::query::ast::{Cond, Leaf, Op};
use bcrm_backend::query::builder::OutputCol;
use bcrm_backend::query::parse::QuerySpec;
use bcrm_backend::routes::{
    add_condition, child_clear, child_link, child_row_plan, children_items, coerce_path_value, csv_cell, csv_header,
    csv_line, delete_request, delete_sql, dry_run_plan, dry_run_report, eq_columns_of_pairs, eq_columns_of_query,
    exists_answer, export_spec, filter_delete_parts, health_data, id_condition, is_single_column, keys_match,
    one_member, origin_allowed, output_names, patch_plan, patch_request, pk_where, rows_sum, single_pk, unknown_path,
    wants_dry_run,
};
use bcrm_backend::schema::{tables_summary, BelongsTo, Column, HasMany, Reference, Registry, Table};
use bcrm_backend::value::SqlVal;

fn col(name: &str, ty: &str) -> Column {
    Column {
        name: name.to_string(),
        ty: ty.to_string(),
        sql_type: ty.to_string(),
        primary_key: false,
        auto_increment: false,
        not_null: false,
        unique: false,
        enum_values: None,
        boolean: ty == "BOOLEAN",
        default: None,
        references: None,
        json: false,
    }
}

fn id_col() -> Column {
    let mut c = col("id", "INTEGER");
    c.primary_key = true;
    c.auto_increment = true;
    c.not_null = true;
    c
}

fn table(name: &str, group: &str, columns: Vec<Column>) -> Table {
    Table {
        name: name.to_string(),
        group_code: group.to_string(),
        group: group.to_string(),
        primary_key: vec!["id".to_string()],
        unique_keys: vec![],
        foreign_keys: vec![],
        columns,
        indexes: vec![],
        belongs_to: vec![],
        has_many: vec![],
    }
}

fn shop_tables() -> Vec<Table> {
    let mut name = col("name", "TEXT");
    name.not_null = true;
    let mut level = col("level", "TEXT");
    level.enum_values = Some(vec!["A".to_string(), "B".to_string()]);
    let mut tags = col("tags", "TEXT");
    tags.json = true;
    let mut org_id = col("org_id", "INTEGER");
    org_id.references = Some(Reference { table: "org".to_string(), column: "id".to_string() });
    let mut customer = table(
        "customer",
        "客户",
        vec![
            id_col(),
            name,
            level,
            tags,
            col("score", "REAL"),
            col("vip", "BOOLEAN"),
            org_id,
            col("updated_at", "TEXT"),
        ],
    );
    customer.unique_keys = vec![vec!["name".to_string()]];
    customer.belongs_to = vec![BelongsTo {
        table: "org".to_string(),
        column: "org_id".to_string(),
        ref_column: "id".to_string(),
        on_delete: None,
    }];
    customer.has_many = vec![
        HasMany { table: "contact".to_string(), column: "customer_id".to_string(), on_delete: Some("CASCADE".to_string()) },
        HasMany { table: "note".to_string(), column: "customer_id".to_string(), on_delete: None },
    ];
    let mut cid = col("customer_id", "INTEGER");
    cid.not_null = true;
    let contact = table("contact", "客户", vec![id_col(), cid, col("phone", "TEXT")]);
    let org = table("org", "组织", vec![id_col(), col("name", "TEXT")]);
    vec![customer, contact, org]
}

fn shop() -> Registry {
    Registry::from_tables(shop_tables(), vec![]).unwrap()
}

fn o(members: Vec<(&str, Json)>) -> Json {
    Json::Object(members.into_iter().map(|(k, v)| (k.to_string(), v)).collect())
}

fn s(x: &str) -> Json {
    Json::Str(x.to_string())
}

#[test]
fn pk_where_binds_the_path_id() {
    let reg = shop();
    let t = reg.table("customer").unwrap();
    let (sql, ps) = pk_where(t, "7").unwrap();
    assert_eq!(sql, "\"id\" = ?");
    assert_eq!(ps, vec![SqlVal::Integer(7)]);
}

#[test]
fn pk_where_refuses_a_non_integer_id() {
    let reg = shop();
    let t = reg.table("customer").unwrap();
    let e = pk_where(t, "x").unwrap_err();
    assert_eq!(e.code, 40002);
    assert_eq!(e.message, "主键必须是整数: x");
}

#[test]
fn single_pk_needs_a_key() {
    let mut t = table("log", "x", vec![col("msg", "TEXT")]);
    t.primary_key = vec![];
    let e = single_pk(&t).unwrap_err();
    assert_eq!(e.message, "表 log 没有单一主键");
    let e2 = pk_where(&t, "1").unwrap_err();
    assert_eq!(e2.message, "表 log 没有单一主键");
}

#[test]
fn child_link_names_the_link_column() {
    let reg = shop();
    let t = reg.table("customer").unwrap();
    assert_eq!(child_link(t, "contact").unwrap(), "customer_id");
    let e = child_link(t, "orders").unwrap_err();
    assert_eq!(e.code, 40002);
    assert_eq!(e.message, "表 customer 不存在子表 orders，可用: contact, note");
}

#[test]
fn coerce_path_value_reads_by_column_type() {
    let reg = shop();
    let t = reg.table("customer").unwrap();
    let id = t.column("id").unwrap();
    let score = t.column("score").unwrap();
    let name = t.column("name").unwrap();
    let vip = t.column("vip").unwrap();
    assert_eq!(coerce_path_value(id, "12"), Json::Int(12));
    assert_eq!(coerce_path_value(id, "+12"), Json::Int(12));
    assert_eq!(coerce_path_value(id, "abc"), s("abc"));
    assert_eq!(coerce_path_value(vip, "1"), Json::Int(1));
    assert_eq!(coerce_path_value(score, "1.5"), Json::Num("1.5".to_string()));
    assert_eq!(coerce_path_value(score, "inf"), s("inf"));
    assert_eq!(coerce_path_value(score, "x1"), s("x1"));
    assert_eq!(coerce_path_value(name, "12"), s("12"));
}

#[test]
fn eq_columns_skip_control_and_operator_keys() {
    let cols = eq_columns_of_query(Some(
        "name=Bob&filter%5Blevel%5D=A&page=2&score__gte=3&org.name=x&q=abc&where=a&logic=or",
    ));
    assert_eq!(cols, vec!["name".to_string(), "level".to_string()]);
    assert!(eq_columns_of_query(None).is_empty());
    let pairs = vec![("filter[]".to_string(), "1".to_string()), ("a[b".to_string(), "1".to_string())];
    assert_eq!(eq_columns_of_pairs(&pairs), vec!["".to_string()]);
}

#[test]
fn keys_match_whole_unique_keys() {
    let reg = shop();
    let t = reg.table("customer").unwrap();
    assert!(keys_match(t, &vec!["name".to_string()]));
    assert!(keys_match(t, &vec!["id".to_string()]));
    assert!(!keys_match(t, &vec!["level".to_string(), "score".to_string()]));
    assert!(is_single_column(t, "id"));
    assert!(is_single_column(t, "name"));
    assert!(!is_single_column(t, "level"));
}

#[test]
fn add_condition_narrows_the_request() {
    let reg = shop();
    let t = reg.table("customer").unwrap();
    let spec = QuerySpec::default();
    let c = id_condition(t, "id", "5").unwrap();
    let s1 = add_condition(spec, c);
    match &s1.cond {
        Some(Cond::Leaf(l)) => {
            assert_eq!(l.column, "id");
            assert_eq!(l.op, Op::Eq);
            assert_eq!(l.values, vec![Json::Int(5)]);
        },
        other => panic!("unexpected {:?}", other),
    }
    let extra = Cond::Leaf(Leaf::new("name".to_string(), Op::Eq, vec![s("Bob")]));
    let s2 = add_condition(s1, extra);
    match &s2.cond {
        Some(Cond::And(v)) => assert_eq!(v.len(), 2),
        other => panic!("unexpected {:?}", other),
    }
    let e = id_condition(t, "id", "five").unwrap_err();
    assert_eq!(e.message, "主键必须是整数: five");
}

#[test]
fn patch_request_reads_items() {
    let reg = shop();
    let t = reg.table("customer").unwrap();
    let body = o(vec![(
        "items",
        Json::Array(vec![o(vec![("id", Json::Int(1)), ("name", s("A"))]), o(vec![("id", Json::Int(2)), ("level", s("B"))])]),
    )]);
    let (pk, pairs) = patch_request(t, &body).unwrap();
    assert_eq!(pk, "id");
    assert_eq!(pairs.len(), 2);
    assert_eq!(pairs[0].0, 1);
    assert_eq!(pairs[1].0, 2);
    assert_eq!(pairs[1].1, o(vec![("id", Json::Int(2)), ("level", s("B"))]));
}

#[test]
fn patch_request_reads_ids_with_a_shared_patch() {
    let reg = shop();
    let t = reg.table("customer").unwrap();
    let body = o(vec![("ids", Json::Array(vec![Json::Int(3), Json::Int(4)])), ("patch", o(vec![("level", s("A"))]))]);
    let (_, pairs) = patch_request(t, &body).unwrap();
    assert_eq!(pairs.len(), 2);
    assert_eq!(pairs[0], (3, o(vec![("level", s("A"))])));
    assert_eq!(pairs[1], (4, o(vec![("level", s("A"))])));
}

#[test]
fn patch_request_refusals() {
    let reg = shop();
    let t = reg.table("customer").unwrap();
    let e = patch_request(t, &o(vec![("items", Json::Array(vec![o(vec![("name", s("x"))])]))])).unwrap_err();
    assert_eq!(e.message, "items 项缺少 id");
    let e = patch_request(t, &o(vec![])).unwrap_err();
    assert_eq!(e.message, "请求体需要 { ids: [...], patch: {...} } 或 { items: [...] }");
    let e = patch_request(t, &o(vec![("ids", Json::Array(vec![])), ("patch", o(vec![]))])).unwrap_err();
    assert_eq!(e.message, "没有要更新的记录");
    let e = patch_request(t, &o(vec![("ids", Json::Array(vec![Json::Int(1), s("x")])), ("patch", o(vec![]))]))
        .unwrap_err();
    assert_eq!(e.message, "ids 必须是整数数组");
    let many: Vec<Json> = (0..1001).map(Json::Int).collect();
    let e = patch_request(t, &o(vec![("ids", Json::Array(many)), ("patch", o(vec![("level", s("A"))]))])).unwrap_err();
    assert_eq!(e.code, 40006);
    assert_eq!(e.message, "批量上限 1000 行");
}

#[test]
fn patch_plan_updates_one_row_without_its_id() {
    let reg = shop();
    let t = reg.table("customer").unwrap();
    let (sql, ps) = patch_plan(t, "id", 5, &o(vec![("id", Json::Int(5)), ("name", s("Bob"))])).unwrap();
    assert_eq!(
        sql,
        "UPDATE \"customer\" SET \"name\" = ?, \"updated_at\" = datetime('now','localtime') WHERE \"id\" = ?"
    );
    assert_eq!(ps, vec![SqlVal::Text("Bob".to_string()), SqlVal::Integer(5)]);
    let e = patch_plan(t, "id", 5, &o(vec![("id", Json::Int(5))])).unwrap_err();
    assert_eq!(e.message, "请求体为空，没有任何字段需要更新");
}

#[test]
fn delete_request_binds_every_id() {
    let reg = shop();
    let t = reg.table("customer").unwrap();
    let (sql, ps) = delete_request(t, &o(vec![("ids", Json::Array(vec![Json::Int(1), Json::Int(2), Json::Int(3)]))]))
        .unwrap();
    assert_eq!(sql, "DELETE FROM \"customer\" WHERE \"id\" IN (?, ?, ?)");
    assert_eq!(ps, vec![SqlVal::Integer(1), SqlVal::Integer(2), SqlVal::Integer(3)]);
    assert_eq!(delete_request(t, &o(vec![("ids", Json::Array(vec![]))])).unwrap_err().message, "ids 为空");
    assert_eq!(delete_request(t, &o(vec![])).unwrap_err().message, "请求体需要 { ids: [...] }");
    assert_eq!(
        delete_request(t, &o(vec![("ids", Json::Array(vec![Json::Num("1.5".to_string())]))])).unwrap_err().message,
        "ids 必须是整数数组"
    );
    assert_eq!(delete_sql(t, "\"id\" = ?"), "DELETE FROM \"customer\" WHERE \"id\" = ?");
}

#[test]
fn delete_by_filter_needs_a_condition() {
    let reg = shop();
    let t = reg.table("customer").unwrap();
    let e = filter_delete_parts(t, &reg, &QuerySpec::default()).unwrap_err();
    assert_eq!(e.code, 40005);
    assert_eq!(e.message, "按条件删除必须至少提供一个 filter 或 where 条件");
    let mut spec = QuerySpec::default();
    spec.cond = Some(Cond::Leaf(Leaf::new("name".to_string(), Op::Eq, vec![s("Bob")])));
    let (w, ps) = filter_delete_parts(t, &reg, &spec).unwrap();
    assert_eq!(w, "\"customer\".\"name\" = ?");
    assert_eq!(ps, vec![SqlVal::Text("Bob".to_string())]);
    let _ = ContextParams;
}

#[test]
fn dry_run_counts_cascading_children() {
    assert!(wants_dry_run(Some("dry_run=1")));
    assert!(wants_dry_run(Some("a=1&x_dry_run_y")));
    assert!(!wants_dry_run(Some("dry=1")));
    assert!(!wants_dry_run(None));
    let reg = shop();
    let t = reg.table("customer").unwrap();
    let plan = dry_run_plan(t, "\"id\" = ?");
    assert_eq!(
        plan,
        vec![
            ("customer".to_string(), "SELECT count(*) FROM \"customer\" WHERE \"id\" = ?".to_string()),
            (
                "contact".to_string(),
                "SELECT count(*) FROM \"contact\" WHERE \"customer_id\" IN (SELECT \"id\" FROM \"customer\" WHERE \"id\" = ?)"
                    .to_string()
            ),
        ]
    );
    let report = dry_run_report(&vec!["customer".to_string(), "contact".to_string()], &vec![1, 3]);
    assert_eq!(report, o(vec![("customer", Json::Int(1)), ("contact", Json::Int(3))]));
    let same = dry_run_report(&vec!["a".to_string(), "a".to_string()], &vec![1, 2]);
    assert_eq!(same, o(vec![("a", Json::Int(2))]));
}

#[test]
fn child_rows_are_replaced_with_the_link_set() {
    let reg = shop();
    let ct = reg.table("contact").unwrap();
    let arr = Json::Array(vec![o(vec![("phone", s("123"))])]);
    assert_eq!(children_items(&arr).unwrap().len(), 1);
    let wrapped = o(vec![("items", Json::Array(vec![]))]);
    assert_eq!(children_items(&wrapped).unwrap().len(), 0);
    assert_eq!(children_items(&o(vec![])).unwrap_err().message, "请求体需要是数组，或 { items: [...] }");
    let (sql, ps) = child_clear(ct, "customer_id", 9);
    assert_eq!(sql, "DELETE FROM \"contact\" WHERE \"customer_id\" = ?");
    assert_eq!(ps, vec![SqlVal::Integer(9)]);
    let (ins, vals) = child_row_plan(ct, "customer_id", 9, &o(vec![("phone", s("123"))])).unwrap();
    assert_eq!(ins, "INSERT INTO \"contact\" (\"customer_id\", \"phone\") VALUES (?, ?)");
    assert_eq!(vals, vec![SqlVal::Integer(9), SqlVal::Text("123".to_string())]);
    let (_, vals2) =
        child_row_plan(ct, "customer_id", 9, &o(vec![("customer_id", Json::Int(1)), ("phone", s("1"))])).unwrap();
    assert_eq!(vals2, vec![SqlVal::Integer(9), SqlVal::Text("1".to_string())]);
    assert_eq!(child_row_plan(ct, "customer_id", 9, &Json::Int(1)).unwrap_err().message, "数组元素必须是对象");
}

#[test]
fn csv_cells_quote_separators() {
    assert_eq!(csv_cell(None), "");
    assert_eq!(csv_cell(Some(&Json::Null)), "");
    assert_eq!(csv_cell(Some(&s("plain"))), "plain");
    assert_eq!(csv_cell(Some(&s("a,b"))), "\"a,b\"");
    assert_eq!(csv_cell(Some(&s("say \"hi\""))), "\"say \"\"hi\"\"\"");
    assert_eq!(csv_cell(Some(&s("two\nlines"))), "\"two\nlines\"");
    assert_eq!(csv_cell(Some(&Json::Int(5))), "5");
    assert_eq!(csv_cell(Some(&Json::Bool(true))), "true");
    assert_eq!(csv_cell(Some(&Json::Array(vec![Json::Int(1), Json::Int(2)]))), "\"[1,2]\"");
}

#[test]
fn csv_lines_follow_the_header() {
    let names = vec!["id".to_string(), "name".to_string()];
    assert_eq!(csv_header(&names), "\u{feff}id,name\n");
    let row = o(vec![("id", Json::Int(1)), ("name", s("x,y"))]);
    assert_eq!(csv_line(&names, &row), "1,\"x,y\"\n");
    let outs = vec![
        OutputCol::Base("id".to_string()),
        OutputCol::Joined { key: "org".to_string(), column: "name".to_string() },
        OutputCol::Agg { alias: "n".to_string() },
    ];
    assert_eq!(output_names(&outs), vec!["id".to_string(), "org__name".to_string(), "n".to_string()]);
    let spec = export_spec(QuerySpec::default());
    assert_eq!(spec.limit, Some(10000));
    assert_eq!(spec.page, Some(1));
}

#[test]
fn small_answers() {
    assert_eq!(exists_answer(&o(vec![("count", Json::Int(2))])), o(vec![("exists", Json::Bool(true))]));
    assert_eq!(exists_answer(&o(vec![("count", Json::Int(0))])), o(vec![("exists", Json::Bool(false))]));
    assert_eq!(exists_answer(&o(vec![])), o(vec![("exists", Json::Bool(false))]));
    assert_eq!(one_member("deleted", Json::Int(3)), o(vec![("deleted", Json::Int(3))]));
}

#[test]
fn origins_of_the_loopback_and_the_shell() {
    assert!(origin_allowed("null"));
    assert!(origin_allowed("http://127.0.0.1:5173"));
    assert!(origin_allowed("http://localhost:8080"));
    assert!(origin_allowed("http://[::1]:3000"));
    assert!(origin_allowed("tauri://localhost"));
    assert!(origin_allowed("https://tauri.localhost"));
    assert!(!origin_allowed("http://127.0.0.1"));
    assert!(!origin_allowed("http://evil.example"));
    assert!(!origin_allowed(""));
}

#[test]
fn unknown_paths_are_not_found() {
    let e = unknown_path("/x");
    assert_eq!(e.code, 40401);
    assert_eq!(e.status, 404);
    assert_eq!(e.message, "未知路径 /x。可用形式：/api/v1/{table}、/api/v1/{table}/{id}、/api/v1/meta/tables");
}

#[test]
fn health_reports_rows_per_table() {
    let counts = vec![("a".to_string(), 2i64), ("b".to_string(), 5i64)];
    assert_eq!(rows_sum(&counts), 7);
    let h = health_data("/tmp/crm.db", 3, &counts);
    assert_eq!(
        h,
        o(vec![
            ("status", s("ok")),
            ("db_path", s("/tmp/crm.db")),
            ("table_count", Json::Int(3)),
            ("total_rows", Json::Int(7)),
            (
                "tables",
                Json::Array(vec![
                    o(vec![("table", s("a")), ("rows", Json::Int(2))]),
                    o(vec![("table", s("b")), ("rows", Json::Int(5))]),
                ])
            ),
        ])
    );
}

#[test]
fn tables_summary_groups_tables() {
    let reg = shop();
    let sum = tables_summary(&reg);
    let Json::Object(top) = sum else { panic!("not an object") };
    assert_eq!(top[0], ("table_count".to_string(), Json::Int(3)));
    let Json::Object(groups) = &top[1].1 else { panic!("groups") };
    assert_eq!(groups.len(), 2);
    assert_eq!(groups[0].0, "客户");
    let Json::Array(members) = &groups[0].1 else { panic!("members") };
    assert_eq!(members.len(), 2);
    assert_eq!(
        members[1],
        o(vec![
            ("name", s("customer")),
            ("path", s("/api/v1/customer")),
            ("primary_key", Json::Array(vec![s("id")])),
            ("unique_keys", Json::Array(vec![Json::Array(vec![s("name")])])),
            ("column_count", Json::Int(8)),
        ])
    );
}
