use bcrm_backend::cli::parse_args;
use bcrm_backend::db::{
    append_suffix, db_candidates, dedup_candidates, folder_of, inspect_candidate, parent_dir, resolve_db_path,
    wants_seed, CandidateProbe, DbCandidate, DbLocation, FallbackLog, FallbackSearch, FallbackStep, LocationKind,
};
use bcrm_backend::desktop::{
    fatal_detail, heal_identity, heal_outcome, heal_start, heal_warning, owner_is_privileged, repair_failed, repair_prompt,
    webview_candidates, webview_dir_hint, HealStep,
};
use bcrm_backend::error::ApiError;
use bcrm_backend::report::{DiagnosticsInput, OpenSummary};
use bcrm_backend::schema::{Column, Registry, Table};
use bcrm_backend::{diagnostics_report, AppState};

fn cand(path: &str, kind: LocationKind, label: &str) -> DbCandidate {
    DbCandidate { path: path.to_string(), kind, label: label.to_string() }
}

fn one_table_registry() -> Registry {
    let c = Column {
        name: "id".to_string(),
        ty: "INTEGER".to_string(),
        sql_type: "INTEGER".to_string(),
        primary_key: true,
        auto_increment: true,
        not_null: true,
        unique: false,
        enum_values: None,
        boolean: false,
        default: None,
        references: None,
        json: false,
    };
    let t = Table {
        name: "customer".to_string(),
        group_code: "c".to_string(),
        group: "c".to_string(),
        primary_key: vec!["id".to_string()],
        unique_keys: vec![],
        foreign_keys: vec![],
        columns: vec![c],
        indexes: vec![],
        belongs_to: vec![],
        has_many: vec![],
    };
    Registry::from_tables(vec![t], vec![]).unwrap()
}

#[test]
fn inspection_verdicts() {
    let c = cand("/app/crm.db", LocationKind::Portable, "exe 同级目录（便携）: /app");
    let p = inspect_candidate(&c, "/app".to_string(), true, true, true);
    assert!(p.ok);
    assert_eq!(p.reason, "已存在的 crm.db 可读写");
    assert_eq!(p.file_writable, Some(true));
    assert!(p.portable);
    let p = inspect_candidate(&c, "/app".to_string(), true, true, false);
    assert!(!p.ok);
    assert_eq!(p.reason, "已存在的 crm.db 不可写（只读属性或 ACL 拒绝写）");
    let p = inspect_candidate(&c, "/app".to_string(), false, true, false);
    assert!(p.ok);
    assert_eq!(p.file_writable, None);
    assert_eq!(p.reason, "目录可写，可直接新建库");
    let p = inspect_candidate(&c, "/app".to_string(), false, false, true);
    assert!(!p.ok);
    assert_eq!(p.reason, "目录不可写（权限不足 / 只读 / 受控文件夹访问拦截）");
}

#[test]
fn probe_description_line() {
    let c = cand("/app/crm.db", LocationKind::UserData, "用户数据目录: /home/u/Bcrm");
    let p = inspect_candidate(&c, "/app".to_string(), false, true, false);
    assert_eq!(
        p.describe(),
        "[可用] 用户数据目录: /home/u/Bcrm | 目录可写=是 | 库已存在=否 | 库可写=— | 目录可写，可直接新建库 | /app/crm.db"
    );
    let q = CandidateProbe { file_writable: Some(false), ok: false, reason: "r".to_string(), ..p.clone() };
    assert_eq!(q.describe(), "[跳过] 用户数据目录: /home/u/Bcrm | 目录可写=是 | 库已存在=否 | 库可写=否 | r | /app/crm.db");
}

#[test]
fn location_brief() {
    let loc = DbLocation { path: "D:\\app\\crm.db".to_string(), portable: true, label: String::new(), skipped: vec![] };
    assert_eq!(loc.brief(), "D:\\app\\crm.db（便携模式）");
    let loc2 = DbLocation { portable: false, ..loc };
    assert_eq!(loc2.brief(), "D:\\app\\crm.db（用户目录）");
}

#[test]
fn candidates_in_order_of_preference() {
    let cs = db_candidates(
        Some(("/app".to_string(), "/app/crm.db".to_string())),
        Some(("/home/u/Bcrm".to_string(), "/home/u/Bcrm/crm.db".to_string())),
    );
    assert_eq!(cs.len(), 3);
    assert_eq!(cs[0].path, "/app/crm.db");
    assert_eq!(cs[0].kind, LocationKind::Portable);
    assert_eq!(cs[0].label, "exe 同级目录（便携）: /app");
    assert_eq!(cs[1].kind, LocationKind::UserData);
    assert_eq!(cs[1].label, "用户数据目录: /home/u/Bcrm");
    assert_eq!(cs[2].path, "./crm.db");
    assert_eq!(cs[2].kind, LocationKind::WorkingDir);
    assert_eq!(cs[2].label, "当前工作目录（最后兜底）");
    let only = db_candidates(None, None);
    assert_eq!(only.len(), 1);
    let kept = dedup_candidates(cs, &vec!["/app/crm.db".to_string(), "/app/crm.db".to_string(), "/w/crm.db".to_string()]);
    assert_eq!(kept.len(), 2);
    assert_eq!(kept[0].kind, LocationKind::Portable);
    assert_eq!(kept[1].kind, LocationKind::WorkingDir);
}

#[test]
fn predicted_location() {
    let cs = vec![
        cand("/app/crm.db", LocationKind::Portable, "p"),
        cand("/u/crm.db", LocationKind::UserData, "u"),
        cand("./crm.db", LocationKind::WorkingDir, "w"),
    ];
    assert_eq!(resolve_db_path(&cs, true), ("/app/crm.db".to_string(), true));
    assert_eq!(resolve_db_path(&cs, false), ("/u/crm.db".to_string(), false));
    let only_portable = vec![cand("/app/crm.db", LocationKind::Portable, "p")];
    assert_eq!(resolve_db_path(&only_portable, false), ("./crm.db".to_string(), false));
    assert_eq!(resolve_db_path(&vec![], true), ("./crm.db".to_string(), false));
}

#[test]
fn fallback_log_tells_the_story() {
    let c1 = cand("/app/crm.db", LocationKind::Portable, "便携");
    let c2 = cand("/u/crm.db", LocationKind::UserData, "用户");
    let p1 = inspect_candidate(&c1, "/app".to_string(), false, false, false);
    let mut log = FallbackLog::new();
    log.refused(&c1, &p1);
    assert_eq!(log.skipped, vec!["便携 —— 目录不可写（权限不足 / 只读 / 受控文件夹访问拦截）".to_string()]);
    assert_eq!(log.last_err, Some("/app/crm.db: 目录不可写（权限不足 / 只读 / 受控文件夹访问拦截）".to_string()));
    log.seeded(&c2, "/app/crm.db");
    log.seed_failed(&c2, "denied");
    log.open_failed(&c2, "[50002] boom");
    assert_eq!(log.skipped[1], "用户 —— 已从 /app/crm.db 拷贝初始数据库");
    assert_eq!(log.skipped[2], "用户 —— 拷贝初始数据库失败（忽略，按空库继续）: denied");
    assert_eq!(log.skipped[3], "用户 —— 打开/写探针失败: [50002] boom");
    let e = log.exhausted(2);
    assert_eq!(e.code, 50002);
    assert!(e.message.starts_with("所有候选数据库位置都不可用（共 2 个）：\n便携 —— "));
    assert!(e.message.ends_with("\n最后错误：[50002] boom"));
    let fresh = FallbackLog::new();
    assert!(fresh.exhausted(0).message.ends_with("最后错误：未知"));
    let loc = FallbackLog::new().location(&c2);
    assert_eq!(loc.path, "/u/crm.db");
    assert!(!loc.portable);
}

#[test]
fn seeding_only_fills_a_new_user_database() {
    let c2 = cand("/u/crm.db", LocationKind::UserData, "u");
    let c3 = cand("./crm.db", LocationKind::WorkingDir, "w");
    let fresh = inspect_candidate(&c2, "/u".to_string(), false, true, false);
    assert!(wants_seed(&c2, &fresh, Some(true)));
    assert!(!wants_seed(&c2, &fresh, Some(false)));
    assert!(!wants_seed(&c2, &fresh, None));
    let present = inspect_candidate(&c2, "/u".to_string(), true, true, true);
    assert!(!wants_seed(&c2, &present, Some(true)));
    let w = inspect_candidate(&c3, ".".to_string(), false, true, false);
    assert!(!wants_seed(&c3, &w, Some(true)));
}

#[test]
fn folders_and_companion_files() {
    assert_eq!(folder_of(Some(String::new())), ".");
    assert_eq!(folder_of(Some("/a".to_string())), "/a");
    assert_eq!(folder_of(None), ".");
    assert_eq!(parent_dir("/a/b/crm.db"), "/a/b");
    assert_eq!(parent_dir("data/x/crm.db"), "data/x");
    assert_eq!(parent_dir("/crm.db"), "/");
    assert_eq!(parent_dir("crm.db"), ".");
    assert_eq!(parent_dir("/"), ".");
    assert_eq!(append_suffix("crm.db", "-wal"), "crm.db-wal");
}

#[test]
fn self_check_report_when_no_place_works() {
    let c = cand("/app/crm.db", LocationKind::Portable, "便携");
    let input = DiagnosticsInput {
        user_domain: Some("PC".to_string()),
        user_name: None,
        wide_pointers: true,
        exe: Some("/app/bcrm".to_string()),
        data_base: None,
        probes: vec![inspect_candidate(&c, "/app".to_string(), false, false, false)],
        opened: Err(ApiError::internal("所有候选数据库位置都不可用")),
    };
    let (text, code) = diagnostics_report(&input);
    assert_eq!(code, 1);
    let expected = "BCRM 数据库自检报告\n\
==================================================\n\
用户      : PC\\?\n\
进程位数  : 64 位\n\
可执行文件: /app/bcrm\n\
数据目录基: (取不到)\n\
\n\
候选位置体检（按优先级，逐个实测）\n\
--------------------------------------------------\n\
1. [跳过] 便携 | 目录可写=否 | 库已存在=否 | 库可写=— | 目录不可写（权限不足 / 只读 / 受控文件夹访问拦截） | /app/crm.db\n\
\n\
实际落点（打开 + 建表检查 + 写探针）\n\
--------------------------------------------------\n  失败: [50002] 所有候选数据库位置都不可用\n\n\
结论: 不可用（请管理员检查目录 ACL，或把程序放到有写权限的目录）";
    assert_eq!(text, expected);
}

#[test]
fn self_check_report_when_the_database_opens() {
    let loc = DbLocation {
        path: "/u/crm.db".to_string(),
        portable: false,
        label: "u".to_string(),
        skipped: vec!["便携 —— 目录不可写".to_string()],
    };
    let input = DiagnosticsInput {
        user_domain: None,
        user_name: Some("alice".to_string()),
        wide_pointers: false,
        exe: None,
        data_base: Some("/home/alice".to_string()),
        probes: vec![],
        opened: Ok(OpenSummary {
            location: loc,
            table_count: 62,
            counts: vec![("a".to_string(), 3), ("b".to_string(), 4)],
            writable: true,
            file_size: Some(4096),
        }),
    };
    let (text, code) = diagnostics_report(&input);
    assert_eq!(code, 0);
    assert!(text.starts_with("BCRM 数据库自检报告\n"));
    assert!(text.contains("用户      : ?\\alice\n进程位数  : 32 位\n可执行文件: (取不到)\n数据目录基: /home/alice\n"));
    assert!(text.ends_with(
        "--------------------------------------------------\n  · 便携 —— 目录不可写\n  选用    : /u/crm.db（用户目录）\n  表白名单: 62 张\n  数据行数: 7 行（2 张表）\n  写探针  : 通过\n  库文件  : 4096 字节\n\n结论: 可用（数据库可读可写，应用能正常打开）"
    ));
}

#[test]
fn command_line_options() {
    let args = |v: &[&str]| v.iter().map(|s| s.to_string()).collect::<Vec<String>>();
    let o = parse_args(&args(&["prog"]));
    assert_eq!(o.port, 8787);
    assert_eq!(o.host, "127.0.0.1");
    assert_eq!(o.db_path, None);
    assert!(!o.help && !o.no_web && !o.db_check);
    let o = parse_args(&args(&["prog", "--port", "9000", "--host", "0.0.0.0", "-d", "x.db", "--no-web", "--db-info"]));
    assert_eq!(o.port, 9000);
    assert_eq!(o.host, "0.0.0.0");
    assert_eq!(o.db_path, Some("x.db".to_string()));
    assert!(o.no_web);
    assert!(o.db_check);
    let o = parse_args(&args(&["prog", "-p", "abc"]));
    assert_eq!(o.port, 8787);
    let o = parse_args(&args(&["prog", "-p", "70000"]));
    assert_eq!(o.port, 8787);
    let o = parse_args(&args(&["prog", "--help", "--port", "1"]));
    assert!(o.help);
    assert_eq!(o.port, 8787);
    let o = parse_args(&args(&["prog", "--web-dir"]));
    assert_eq!(o.web_dir, None);
    let o = parse_args(&args(&["prog", "-w", "dist", "--unknown", "--port"]));
    assert_eq!(o.web_dir, Some("dist".to_string()));
    assert_eq!(o.port, 8787);
}

#[test]
fn privileged_owners() {
    assert!(owner_is_privileged("BUILTIN\\Administrators"));
    assert!(owner_is_privileged("NT AUTHORITY\\SYSTEM"));
    assert!(!owner_is_privileged("DESKTOP-1\\alice"));
    assert!(!owner_is_privileged(""));
}

#[test]
fn webview_folder_diagnosis() {
    let h = webview_dir_hint("C:\\u\\wv", true, Some("BUILTIN\\Administrators".to_string()), true);
    assert!(h.starts_with("WebView2 用户数据目录诊断：\n  路径        : C:\\u\\wv\n  是否存在    : 是\n  所有者      : BUILTIN\\Administrators\n  当前用户可写: 是\n"));
    assert!(h.contains("⚠️ 所有者不是当前用户"));
    let h2 = webview_dir_hint("C:\\u\\wv", false, None, false);
    assert_eq!(
        h2,
        "WebView2 用户数据目录诊断：\n  路径        : C:\\u\\wv\n  是否存在    : 否\n  所有者      : (目录不存在)\n  当前用户可写: 是\n"
    );
    let h3 = webview_dir_hint("d", true, None, false);
    assert!(h3.contains("  所有者      : (取不到)\n  当前用户可写: 否\n"));
}

#[test]
fn state_over_a_database_and_the_whitelist() {
    let st = AppState::init(7u8, Ok(one_table_registry())).unwrap();
    assert_eq!(st.db, 7);
    assert_eq!(st.reg.table_count(), 1);
    let e = AppState::<u8>::init(7, Err("schema.json 中没有任何表定义".to_string())).err().unwrap();
    assert_eq!(e.code, 50002);
    assert_eq!(e.message, "白名单加载失败: schema.json 中没有任何表定义");
    let loc = DbLocation { path: "/u/crm.db".to_string(), portable: true, label: "u".to_string(), skipped: vec![] };
    let (st2, portable) = AppState::init_default((1u8, loc.clone()), Ok(one_table_registry())).unwrap();
    assert!(portable);
    assert_eq!(st2.db, 1);
    let (_, l) = AppState::open_default((1u8, loc), Ok(one_table_registry())).unwrap();
    assert_eq!(l.path, "/u/crm.db");
}

#[test]
fn webview_folder_places_in_order() {
    let all = webview_candidates(
        Some("D:\\bcrm\\.bcrm-webview".to_string()),
        Some("C:\\Users\\u\\AppData\\Local\\Bcrm\\WebView2".to_string()),
        "C:\\Users\\u\\AppData\\Local\\com.bcrm.desktop".to_string(),
    );
    assert_eq!(all.len(), 3);
    assert!(all[0].portable && !all[1].portable && !all[2].portable);
    assert_eq!(all[0].label, "exe 同级（便携）: D:\\bcrm\\.bcrm-webview");
    assert_eq!(all[1].label, "用户数据目录: C:\\Users\\u\\AppData\\Local\\Bcrm\\WebView2");
    assert_eq!(all[2].label, "Tauri 默认位: C:\\Users\\u\\AppData\\Local\\com.bcrm.desktop");
    let only = webview_candidates(None, None, "./com.bcrm.desktop".to_string());
    assert_eq!(only.len(), 1);
    assert_eq!(only[0].path, "./com.bcrm.desktop");
}

#[test]
fn webview_folder_check_steps() {
    let d = "C:\\wv";
    assert_eq!(
        heal_start(d, false, None),
        HealStep::Done("WebView2 用户数据目录: C:\\wv（不存在，首次启动会创建）".to_string())
    );
    assert_eq!(
        heal_start(d, true, None),
        HealStep::Done("WebView2 用户数据目录: C:\\wv（所有者读不到，跳过体检）".to_string())
    );
    assert_eq!(
        heal_start(d, true, Some("PC\\alice".to_string())),
        HealStep::Done("WebView2 用户数据目录: C:\\wv（所有者 PC\\alice，正常）".to_string())
    );
    assert_eq!(
        heal_start(d, true, Some("BUILTIN\\Administrators".to_string())),
        HealStep::CheckIdentity("BUILTIN\\Administrators".to_string())
    );
    assert_eq!(
        heal_identity(d, "BUILTIN\\Administrators", Some("NT AUTHORITY\\SYSTEM".to_string())),
        HealStep::Done("WebView2 用户数据目录: C:\\wv（所有者 BUILTIN\\Administrators，当前进程同为管理员身份，可用）".to_string())
    );
    assert_eq!(
        heal_identity(d, "BUILTIN\\Administrators", Some("PC\\alice".to_string())),
        HealStep::Remove("BUILTIN\\Administrators".to_string(), "PC\\alice".to_string())
    );
    assert_eq!(
        heal_identity(d, "BUILTIN\\Administrators", None),
        HealStep::Remove("BUILTIN\\Administrators".to_string(), String::new())
    );
    assert_eq!(
        heal_warning("BUILTIN\\Administrators", "PC\\alice"),
        "[WARN] WebView2 用户数据目录属于 BUILTIN\\Administrators，但当前进程是普通用户（PC\\alice）—— 这正是「双击没反应、窗口不出现」的已知根因。尝试删除后重建。"
    );
    assert_eq!(
        heal_outcome(d, "BUILTIN\\Administrators", None),
        "WebView2 用户数据目录: C:\\wv —— 已自动修复（原属 BUILTIN\\Administrators，已删除，稍后重建）"
    );
    assert_eq!(
        heal_outcome(d, "BUILTIN\\Administrators", Some("拒绝访问".to_string())),
        "WebView2 用户数据目录: C:\\wv —— ⚠️ 属 BUILTIN\\Administrators 且删除失败（拒绝访问）。请关闭所有 BCRM 窗口后手动删除该目录再启动。"
    );
}

#[test]
fn launcher_messages() {
    assert_eq!(
        fatal_detail("端口被占用"),
        "BCRM 启动失败：\n\n端口被占用\n\n排查线索：程序所在目录下的\n· bcrm-launcher.log（启动过程）\n· bcrm-launcher-error.log（本次错误）\n· bcrm-db-check.txt（运行 bcrm-desktop.exe --db-check 生成）"
    );
    let p = repair_prompt("E1", "H");
    assert!(p.starts_with("BCRM 界面无法创建。\n\n错误：E1\n\nH\n▶ 点「是」：删除上面的目录并重新启动程序。\n该目录只是"));
    assert!(p.ends_with("这个目录又会变成管理员所有，问题重现。"));
    assert_eq!(
        repair_failed("拒绝访问", "C:\\wv"),
        "删除失败：拒绝访问\n\n请手动删除下面这个目录（先关掉所有 BCRM 窗口），再重新双击程序：\n\nC:\\wv"
    );
}

#[test]
fn the_search_takes_the_first_place_that_opens() {
    let cands = vec![
        cand("/app/crm.db", LocationKind::Portable, "便携"),
        cand("/u/crm.db", LocationKind::UserData, "用户"),
        cand("./crm.db", LocationKind::WorkingDir, "当前目录"),
    ];
    let (mut s, step) = FallbackSearch::start(cands.len());
    assert!(matches!(step, FallbackStep::Try(0)));
    let p0 = inspect_candidate(&cands[0], "/app".to_string(), false, false, false);
    let step = s.refused(&cands, &p0);
    assert!(matches!(step, FallbackStep::Try(1)));
    let step = s.open_failed(&cands, "locked");
    assert!(matches!(step, FallbackStep::Try(2)));
    let loc = s.opened(&cands);
    assert_eq!(loc.path, "./crm.db");
    assert_eq!(loc.skipped.len(), 2);

    let one = vec![cand("/u/crm.db", LocationKind::UserData, "用户")];
    let (mut s, _) = FallbackSearch::start(one.len());
    match s.open_failed(&one, "locked") {
        FallbackStep::GiveUp(e) => assert!(e.message.ends_with("\n最后错误：locked")),
        other => panic!("unexpected {:?}", other),
    }
    assert!(matches!(FallbackSearch::start(0).1, FallbackStep::GiveUp(_)));
}
