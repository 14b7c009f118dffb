use cheaptrip::calendar::{civil_from_days, date_string, date_to_days, days_to_date};
use cheaptrip::trains::{
    check_answer, cookie_header, default_date, default_date_at, parse_station_table, plan_at,
    query_candidates, query_candidates_at, query_url, report, resolve_station, rows_in_answer,
    rows_of_value, seat_texts, station_codes, today_epoch_days, TrainPlan, TrainQuery,
    stations_are_fresh,
};

fn value(s: &str) -> serde_json::Value {
    serde_json::from_str(s).unwrap()
}

fn stations() -> Vec<(String, String)> {
    parse_station_table("var station_names='@bjb|北京|BJP|beijing|bjp|1@cbst|长白山站|CSLT|changbaishan|cbs|1@cc|长春|CCT|changchun|cc|2';")
}

#[test]
fn station_table_and_resolve() {
    let js = "var station_names='@bjb|北京|BJP|beijing|bjp|1@cbst|长白山站|CSLT|changbaishan|cbs|1@cc|长春|CCT|changchun|cc|2';";
    let table = parse_station_table(js);
    assert_eq!(table.len(), 3);
    assert_eq!(resolve_station(&table, "北京").as_deref(), Some("BJP"));
    assert_eq!(resolve_station(&table, "长春").as_deref(), Some("CCT"));
    // 模糊：「长白山」→「长白山站」
    assert_eq!(resolve_station(&table, "长白山").as_deref(), Some("CSLT"));
    assert_eq!(resolve_station(&table, "不存在").as_deref(), None);
}

#[test]
fn parse_row_fields() {
    let mut f = vec![""; 58];
    f[1] = "预订";
    f[3] = "Z156";
    f[4] = "UTH";
    f[5] = "VAB";
    f[8] = "06:02";
    f[9] = "15:29";
    f[10] = "09:27";
    f[11] = "Y";
    f[23] = "1";
    f[26] = "无";
    f[28] = "13";
    f[29] = "无";
    let row = f.join("|");
    let fields: Vec<String> = row.split('|').map(|s| s.to_string()).collect();
    assert_eq!(fields[3], "Z156");
    assert_eq!(fields[11], "Y");
    let seats = seat_texts(&fields);
    assert_eq!(seats.join(" "), "软卧:1 硬卧:13");
}

#[test]
fn default_date_format() {
    let d = default_date();
    assert_eq!(d.len(), 10);
    assert_eq!(d.as_bytes()[4], b'-');
    let (y, m): (i64, u32) = (d[..4].parse().unwrap(), d[5..7].parse().unwrap());
    assert!((2026..=2100).contains(&y) && (1..=12).contains(&m));
}

#[test]
fn date_roundtrip_and_candidates() {
    let today = today_epoch_days();
    for off in [0i64, 1, 7, 13, 40, 365] {
        let d = days_to_date(today + off);
        assert_eq!(date_to_days(&d), Some(today + off), "往返失败: {d}");
    }
    // 窗口内（明天）：单候选
    assert_eq!(
        query_candidates(&days_to_date(today + 1)),
        vec![days_to_date(today + 1)]
    );
    // 窗口末当天：单候选
    assert_eq!(
        query_candidates(&days_to_date(today + 13)),
        vec![days_to_date(today + 13)]
    );
    // 超窗（40 天后）：单候选 today+10
    let far = days_to_date(today + 40);
    assert_eq!(query_candidates(&far), vec![days_to_date(today + 10)]);
    // 非法日期原样透传（由查询层自然失败）
    assert_eq!(
        query_candidates("not-a-date"),
        vec!["not-a-date".to_string()]
    );
    assert_eq!(date_to_days("2026-02-29"), None);
    assert_eq!(date_to_days("2026-09-31"), None);
}

#[test]
fn past_date_is_rejected_before_network_access() {
    let args = value(r#"{"from": "北京北", "to": "大同南", "date": "2025-10-04"}"#);
    match plan_at(&args, today_epoch_days()) {
        TrainPlan::Reply(out) => assert!(out.contains("已经过期"), "输出异常: {out}"),
        _ => panic!("过去日期应返回用户可读提示"),
    }
}

#[test]
fn days_have_dates() {
    assert_eq!(civil_from_days(0), (1970, 1, 1));
    assert_eq!(civil_from_days(-1), (1969, 12, 31));
    assert_eq!(days_to_date(19_782), "2024-02-29");
    assert_eq!(days_to_date(0), "1970-01-01");
    assert_eq!(date_to_days("2024-02-29"), Some(19_782));
    assert_eq!(date_string(2026, 3, 4), "2026-03-04");
    assert_eq!(date_to_days("2026-13-01"), None);
    assert_eq!(date_to_days("2026-1"), None);
    assert_eq!(date_to_days("2100-02-29"), None);
    assert_eq!(date_to_days("2000-02-29"), Some(11_016));
}

#[test]
fn a_search_is_planned() {
    let today = date_to_days("2026-10-01").unwrap();
    assert_eq!(default_date_at(today), "2026-10-08");
    match plan_at(&value(r#"{"from":" 北京站 ","to":"长春"}"#), today) {
        TrainPlan::Ask(q) => {
            assert_eq!((q.from.as_str(), q.to.as_str(), q.date.as_str()), ("北京", "长春", "2026-10-08"))
        }
        _ => panic!(),
    }
    match plan_at(&value(r#"{"from":"北京","to":"长春","date":"10月1日"}"#), today) {
        TrainPlan::Reply(s) => assert_eq!(s, "日期格式应为 YYYY-MM-DD，收到「10月1日」"),
        _ => panic!(),
    }
    assert!(matches!(plan_at(&value(r#"{"to":"长春"}"#), today), TrainPlan::Fail(_)));
    assert!(matches!(plan_at(&value(r#"{"from":"长春"}"#), today), TrainPlan::Fail(_)));
    // No search is made for a day that is not on sale, and none for a day that has gone by.
    assert_eq!(query_candidates_at("2026-10-14", today), vec!["2026-10-14"]);
    assert_eq!(query_candidates_at("2026-10-15", today), vec!["2026-10-11"]);
}

#[test]
fn stations_are_coded() {
    let table = stations();
    let q = |from: &str, to: &str| TrainQuery {
        from: from.into(),
        to: to.into(),
        date: "2026-10-01".into(),
    };
    assert_eq!(
        station_codes(&table, &q("北京", "长白山")).unwrap(),
        ("BJP".to_string(), "CSLT".to_string())
    );
    assert_eq!(station_codes(&table, &q("无", "长春")).unwrap_err(), "出发站名未识别");
    assert_eq!(station_codes(&table, &q("长春", "无")).unwrap_err(), "到达站名未识别");
    assert_eq!(
        station_codes(&vec![], &q("a", "b")).unwrap_err(),
        "站名表解析为空（12306 可能改版）"
    );
    assert_eq!(
        query_url("2026-10-01", "BJP", "CCT"),
        "https://kyfw.12306.cn/otn/leftTicket/queryG?leftTicketDTO.train_date=2026-10-01&leftTicketDTO.from_station=BJP&leftTicketDTO.to_station=CCT&purpose_codes=ADULT"
    );
}

#[test]
fn answers_are_checked() {
    let host = Some("kyfw.12306.cn".to_string());
    assert!(check_answer(&host, "/otn/leftTicket/queryG", "application/JSON;charset=UTF-8").is_ok());
    assert!(check_answer(&host, "/otn/error.html", "application/json").is_err());
    assert!(check_answer(&host, "/x", "text/html").is_err());
    assert!(check_answer(&None, "/x", "application/json").is_err());
    assert_eq!(
        cookie_header(&vec!["a=1; Path=/".into(), "b=2; HttpOnly".into()]),
        "a=1; b=2"
    );
}

#[test]
fn rows_are_read() {
    let body = r#"{"data":{"result":["r1",5,"r2"]}}"#;
    assert_eq!(rows_in_answer(body).unwrap(), vec!["r1", "r2"]);
    assert_eq!(rows_of_value(&value(body)), vec!["r1", "r2"]);
    assert!(rows_of_value(&value("{}")).is_empty());
    assert!(rows_in_answer("<html>").is_err());
}

#[test]
fn trains_are_reported() {
    let table = stations();
    let mut f = vec![""; 40];
    f[3] = "G1";
    f[4] = "BJP";
    f[5] = "CCT";
    f[8] = "06:02";
    f[9] = "15:29";
    f[10] = "09:27";
    f[11] = "Y";
    f[30] = "有";
    let q = TrainQuery {
        from: "北京".into(),
        to: "长春".into(),
        date: "2026-10-30".into(),
    };
    let out = report(&q, "2026-10-11", "BJP", "CCT", &table, &vec![f.join("|")]);
    assert!(out.starts_with("注意：2026-10-30 尚未开售"), "{out}");
    assert!(out.contains("2026-10-11 北京(BJP)→长春(CCT) 共 1 趟"), "{out}");
    assert!(out.contains("G1 北京 06:02 → 长春 15:29（历时 09:27）"), "{out}");
    assert!(report(&q, "2026-10-30", "BJP", "CCT", &table, &vec![]).contains("无直达车次"));
}

#[test]
fn the_station_list_is_kept_for_a_week() {
    assert!(stations_are_fresh(Some(0)));
    assert!(stations_are_fresh(Some(7 * 86400 - 1)));
    assert!(!stations_are_fresh(Some(7 * 86400)));
    assert!(!stations_are_fresh(None));
}

#[test]
fn later_days_have_later_texts() {
    assert_eq!(days_to_date(-719_528), "0000-01-01");
    assert_eq!(days_to_date(2_932_896), "9999-12-31");
    let days: Vec<i64> = (-719_528..2_932_896).step_by(997).chain([-1, 0, 1, 31, 365]).collect();
    for a in days {
        let (x, y) = (days_to_date(a), days_to_date(a + 1));
        assert!(x < y && x.len() == 10, "{x} {y}");
    }
}
