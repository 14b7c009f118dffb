use cheaptrip::hotel::{
    command_args, finish, parse_hotel_id, plan, read_value, render_summary, scan_max_index,
    CrawlEnd, CrawlPlan, HotelReviews,
};
use cheaptrip::manage::{
    account_line, admin_init_check, admin_made, admin_manage, admin_migrate_check, clean_test_maps,
    cleaned, command, hotel_login_end, hotel_login_fault, hotel_logout_end, hotel_manage,
    hotel_status, hotel_switched, password_was_reset, read_password_input, read_password_line,
    sessions_migrated, xhs_manage, xhs_script_failed, xhs_status, xhs_switched, AdminOp, Command,
    EntryStep, HotelOp, PasswordEntry, PasswordSource, XhsOp,
};
use cheaptrip::session::Session;
use cheaptrip::ui::KeyCode;
use serde_json::Value;

fn value(s: &str) -> Value {
    serde_json::from_str(s).unwrap()
}

fn strings(v: &[&str]) -> Vec<String> {
    v.iter().map(|s| s.to_string()).collect()
}

#[test]
fn parse_hotel_id_forms() {
    assert_eq!(
        parse_hotel_id("https://hotels.ctrip.com/hotels/1286148.html").unwrap(),
        "1286148"
    );
    assert_eq!(
        parse_hotel_id("https://hotels.ctrip.com/hotels/detail/?hotelId=1286148").unwrap(),
        "1286148"
    );
    assert_eq!(
        parse_hotel_id("https://m.ctrip.com/webapp/hotel/hoteldetail/1286148.html").unwrap(),
        "1286148"
    );
    assert_eq!(parse_hotel_id("1286148").unwrap(), "1286148");
    assert!(parse_hotel_id("汉庭酒店").is_none());
}

#[test]
fn render_summary_tolerates_missing_fields() {
    let v = value(
        r#"{
        "name": "测试酒店", "rating": 4.6, "reviewCount": "1.3万", "opened": "2021年开业",
        "subRatings": {"卫生": 4.7}, "dislikeCount": 12,
        "keywordTags": [{"word": "位置好", "count": 100}],
        "dislikes": [{"score": 2.0, "date": "2026年08月", "province": "北京", "text": "空调异响", "hotelReply": "酒店回复: 抱歉", "images": ["a","b"]}],
        "good": [], "images": ["x.jpg"]
    }"#,
    );
    let s = render_summary(&v, "hotels/test/hotel_1");
    assert!(s.contains("测试酒店"));
    assert!(s.contains("差评 12 条"));
    assert!(s.contains("位置好(100)"));
    assert!(s.contains("空调异响"));
    assert!(s.contains("含图2"));
    assert!(s.contains("〔酒店回复"));
    // Numbers are written as the source has them.
    assert!(s.contains("4.6") && s.contains("4.7") && s.contains("2.0"), "{s}");
    let empty = value("{}");
    assert!(!render_summary(&empty, "x").is_empty());
}

#[test]
fn a_crawl_is_planned() {
    let ready = || Ok(());
    match plan(&value(r#"{"hotel_url_or_id":"1286148","image_limit":9,"checkin":"2026-10-01"}"#), ready()) {
        CrawlPlan::Run(c) => {
            assert_eq!((c.dislike, c.good, c.images), (15, 10, 5));
            assert_eq!(c.checkin.as_deref(), Some("2026-10-01"));
            let args = command_args(&c, "hotels/s/hotel_1");
            assert!(args.contains(&"1286148".to_string()));
            assert!(args.contains(&"2026-10-01".to_string()));
        }
        _ => panic!(),
    }
    assert!(matches!(plan(&value("{}"), ready()), CrawlPlan::Fail(_)));
    match plan(&value(r#"{"hotel_url_or_id":"汉庭"}"#), ready()) {
        CrawlPlan::Reply(s) => assert!(s.contains("无法从「汉庭」解析出携程酒店 id")),
        _ => panic!(),
    }
    match plan(&value(r#"{"hotel_url_or_id":"1286148"}"#), Err("未登录".into())) {
        CrawlPlan::Reply(s) => assert!(s.starts_with("酒店评论爬取不可用：未登录。")),
        _ => panic!(),
    }
}

#[test]
fn a_crawl_ends() {
    let exited = |code: Option<i32>, stdout: &str, stderr: &str| CrawlEnd::Exited {
        code,
        status: "exit status: 1".into(),
        stdout: stdout.into(),
        stderr: stderr.into(),
    };
    assert!(finish("7", &CrawlEnd::TimedOut, "d").unwrap().contains("超时"));
    assert!(finish("7", &exited(Some(2), "", ""), "d").unwrap().contains("登录态已失效"));
    let failed = finish("7", &exited(Some(1), "", "1\n2\n3\n4\n5\n6\n7"), "d").unwrap();
    assert!(failed.contains("2\n3\n4\n5\n6\n7") && !failed.contains("1\n2"), "{failed}");
    assert!(finish("7", &exited(Some(0), " {\"name\":\"甲\"}\n", ""), "d").unwrap().contains("甲"));
    let bad = finish("7", &exited(Some(0), "坏", ""), "d").unwrap_err();
    assert!(bad.starts_with("解析爬虫输出失败: 坏: "), "{bad}");
    assert!(read_value("7", &value("{}"), "d").contains("7 页面未解析出酒店信息"));
}

#[test]
fn crawls_are_numbered_on() {
    let names = strings(&["hotel_1", "hotel_7", "hotel_x", "other_9"]);
    assert_eq!(scan_max_index(&names, "hotel_"), 7);
    let mut h = HotelReviews::new("a/b".into(), &names);
    assert_eq!(h.next_dir(), "hotels/a_b/hotel_8");
    assert_eq!(h.next_dir(), "hotels/a_b/hotel_9");
    // The directory is the one that goes with the session, whatever the id is made of.
    let mut far = HotelReviews::new("a/中b·é".into(), &Vec::new());
    assert_eq!(far.next_dir(), "hotels/a_中b_é/hotel_1");
    assert_eq!(Session::delete("a/中b·é").hotels, "hotels/a_中b_é");
    assert!(h.env_ready(true, true, true).is_ok());
    for (script, login, libraries) in [(false, true, true), (true, false, true), (true, true, false)] {
        assert!(h.env_ready(script, login, libraries).is_err());
    }
}

#[test]
fn commands_are_told_apart() {
    for (arg, c) in [
        (Some("clean-test"), Command::CleanTest),
        (Some("hotel"), Command::Hotel),
        (Some("xhs"), Command::Xhs),
        (Some("admin"), Command::Admin),
        (Some("web"), Command::Web),
        (Some("tui"), Command::Tui),
        (Some("TUI"), Command::Tui),
        (Some("x"), Command::Cli),
        (None, Command::Cli),
    ] {
        assert_eq!(command(&arg.map(|s| s.to_string())), c);
    }
}

#[test]
fn hotel_commands() {
    let op = |s: &str| hotel_manage(&Some(s.to_string()));
    assert!(matches!(op("login"), HotelOp::Login));
    assert!(matches!(op("logout"), HotelOp::Logout));
    assert!(matches!(op("on"), HotelOp::Switch(true)));
    assert!(matches!(op("off"), HotelOp::Switch(false)));
    assert!(matches!(op("status"), HotelOp::Status));
    assert!(matches!(hotel_manage(&None), HotelOp::Status));
    match op("a\"b") {
        HotelOp::Fail(s) => assert_eq!(
            s,
            "未知子命令 Some(\"a\\\"b\")（可用：login | logout | on | off | status）"
        ),
        _ => panic!(),
    }
    assert!(hotel_login_fault(true, true).is_none());
    assert_eq!(hotel_login_fault(true, false).unwrap().1, "缺少依赖");
    assert!(hotel_login_fault(false, true).unwrap().1.starts_with("爬虫脚本缺失"));
    assert!(hotel_login_end(true).is_ok() && hotel_login_end(false).is_err());
    assert!(hotel_logout_end(true).starts_with("已删除") && hotel_logout_end(false).starts_with("本就"));
    assert_eq!(
        hotel_switched(true, true, false),
        "酒店爬虫已启用（toggles.hotel_crawler = true）；登录态：无（需 ./trip hotel login）"
    );
    assert_eq!(
        hotel_status(true, true, true, false),
        "开关        : 启用\n爬虫脚本    : 在\nplaywright  : 已安装\n登录态      : 无（./trip hotel login）\n综合        : 不可用 ✗\n"
    );
}

#[test]
fn xhs_commands() {
    let op = |s: &str| xhs_manage(&Some(s.to_string()));
    assert!(matches!(op("login"), XhsOp::Script { arg: None, .. }));
    match op("check") {
        XhsOp::Script { op, arg } => assert_eq!((op.as_str(), arg.as_deref()), ("check", Some("check"))),
        _ => panic!(),
    }
    assert!(matches!(op("on"), XhsOp::Switch(true)));
    assert!(matches!(op("?"), XhsOp::Fail(_)));
    assert_eq!(xhs_script_failed("check"), "xhs check 未成功（见上方脚本输出）");
    assert_eq!(
        xhs_switched(true, true, false),
        "小红书工具已启用（toggles.xhs = true）\n注意：config.toml [xhs] enabled = false，需改为 true 才会注册工具\n重启 cheaptrip 后生效\n"
    );
    assert!(!xhs_switched(false, false, false).contains("注意"));
    assert!(xhs_status(true, true, "u").contains("已启用（重启后生效）✓\nMCP 端点    : u\n"));
    assert!(xhs_status(true, false, "u").contains("已禁用 ✗"));
}

#[test]
fn passwords_are_taken() {
    assert!(matches!(
        read_password_input(&strings(&["--password-stdin"]), false),
        PasswordSource::Stdin
    ));
    assert!(matches!(
        read_password_input(&strings(&["--password-stdin", "x"]), true),
        PasswordSource::Fail(_)
    ));
    assert!(matches!(read_password_input(&vec![], true), PasswordSource::Prompt));
    assert!(matches!(read_password_input(&vec![], false), PasswordSource::Fail(_)));
    assert!(matches!(read_password_input(&strings(&["a", "b"]), true), PasswordSource::Fail(_)));
    assert_eq!(read_password_line("密码密码密码密码\r\n").unwrap(), "密码密码密码密码");
    assert_eq!(read_password_line("1234567\n").unwrap_err(), "密码至少需要 8 个字符");
    let mut e = PasswordEntry::new();
    for c in "ab中".chars() {
        assert_eq!(e.key(KeyCode::Char(c), true), EntryStep::More);
    }
    e.key(KeyCode::Char('x'), false);
    e.key(KeyCode::Backspace, true);
    assert_eq!(e.password(), "ab");
    assert_eq!(e.key(KeyCode::Esc, true), EntryStep::Cancelled);
    assert_eq!(e.key(KeyCode::Enter, true), EntryStep::Done);
}

#[test]
fn accounts_are_managed() {
    match admin_manage(&strings(&["init", "甲", "--password-stdin"])) {
        AdminOp::Init { username, rest } => {
            assert_eq!((username.as_str(), rest), ("甲", strings(&["--password-stdin"])))
        }
        _ => panic!(),
    }
    assert!(matches!(admin_manage(&strings(&["init"])), AdminOp::Fail(_)));
    assert!(matches!(admin_manage(&strings(&["list"])), AdminOp::List));
    assert!(matches!(admin_manage(&strings(&["migrate-sessions", "a"])), AdminOp::Migrate { .. }));
    assert!(matches!(admin_manage(&strings(&["migrate-sessions", "a", "b"])), AdminOp::Fail(_)));
    assert!(matches!(admin_manage(&strings(&["reset-password", "a"])), AdminOp::Reset { .. }));
    assert!(matches!(admin_manage(&vec![]), AdminOp::Fail(_)));
    assert!(admin_init_check(0).is_ok());
    assert_eq!(admin_init_check(1), Err("管理员已存在；不能重复初始化"));
    assert_eq!(admin_migrate_check(None), Err("指定管理员不存在"));
    assert_eq!(admin_migrate_check(Some(false)), Err("只能把旧会话迁移给管理员"));
    assert!(admin_migrate_check(Some(true)).is_ok());
    assert_eq!(admin_made("a", "db"), "管理员已创建：a（数据库：db）");
    assert_eq!(
        account_line("a", "admin", true, false),
        "a\trole=admin\tenabled=true\tmust_change_password=false"
    );
    assert_eq!(sessions_migrated(3, "a"), "已将 3 个未归属会话迁移给管理员 a。");
    assert_eq!(password_was_reset("a"), "已为 a 设置一次性新密码；首次登录必须修改。");
}

#[test]
fn test_directories_are_cleaned() {
    assert_eq!(clean_test_maps(), vec!["maps/test", "maps/probe", "hotels/test", "hotels/probe"]);
    assert_eq!(cleaned("maps/test", Some(4)), "已删除 maps/test（4 个文件）");
    assert_eq!(cleaned("maps/test", None), "maps/test 不存在，跳过");
}

#[test]
fn a_crawl_loads_few_pictures() {
    for (asked, got) in [(r#","image_limit":2"#, 2), (r#","image_limit":50"#, 5), ("", 5)] {
        let args = value(&format!(r#"{{"hotel_url_or_id":"1286148"{asked}}}"#));
        match plan(&args, Ok(())) {
            CrawlPlan::Run(c) => assert_eq!((c.hotel_id.as_str(), c.images), ("1286148", got)),
            _ => panic!("no crawl for {asked}"),
        }
    }
}
