use cheaptrip::amap::{
    after_drive_reply, check_weather_status, drive_answer, drive_params, geocode_answer,
    geocode_params, geocode_query, label, resolve_adcode, week_cn, weather_answer, weather_failed,
    weather_location, weather_params, Cast, DrivePath, DriveReply, DriveStep, Forecast, GeoCity,
    GeoPlace, GeoReply, Live, WeatherReply,
};
use cheaptrip::knowledge::KnowledgeHub;
use cheaptrip::notes::{NotesPlan, UpdateNotes, MAX_LINES};
use cheaptrip::search_web;
use cheaptrip::xhs::{
    after_response, call_failure, extract_tool_text, friendly, likes, limit_feeds, note_answer,
    note_payload, open_failure, parse_login_qrcode, reply_body, search_answer, search_payload,
    sse_payload, truncate, CallStep, RpcContent, RpcReply, RpcResult,
};
use serde_json::Value;

fn value(s: &str) -> Value {
    serde_json::from_str(s).unwrap()
}

fn text_at(v: &Value, key: &str) -> String {
    v.get(key).and_then(|t| t.as_str()).unwrap_or("").to_string()
}

fn reply(body: &str) -> Result<RpcReply, String> {
    let v: Value = serde_json::from_str(body).map_err(|e| e.to_string())?;
    let result = v.get("result").map(|r| RpcResult {
        content: r
            .get("content")
            .and_then(|c| c.as_array())
            .map(|a| {
                a.iter()
                    .map(|c| RpcContent {
                        kind: text_at(c, "type"),
                        text: text_at(c, "text"),
                        data: text_at(c, "data"),
                        mime_type: text_at(c, "mimeType"),
                    })
                    .collect()
            })
            .unwrap_or_default(),
        is_error: r.get("isError").and_then(|b| b.as_bool()).unwrap_or(false),
    });
    Ok(RpcReply {
        result,
        error: v.get("error").map(|e| text_at(e, "message")),
    })
}

#[test]
fn sse_payload_extracts_last_data() {
    let body = "event: message\ndata: {\"a\":1}\n\nevent: message\ndata: {\"b\":2}\n";
    assert_eq!(sse_payload(body).unwrap(), "{\"b\":2}");
    assert!(sse_payload("no data here").is_err());
}

#[test]
fn extract_tool_text_cases() {
    let ok = r#"{"jsonrpc":"2.0","id":2,"result":{"content":[{"type":"text","text":"笔记A"},{"type":"text","text":"笔记B"}],"isError":false}}"#;
    assert_eq!(extract_tool_text(ok, &reply(ok)).unwrap(), "笔记A\n笔记B");
    let is_err = r#"{"result":{"content":[{"type":"text","text":"未登录"}],"isError":true}}"#;
    assert!(extract_tool_text(is_err, &reply(is_err)).is_err());
    let rpc_err = r#"{"error":{"code":-32602,"message":"bad args"}}"#;
    assert!(extract_tool_text(rpc_err, &reply(rpc_err))
        .unwrap_err()
        .to_string()
        .contains("bad args"));
    let empty = r#"{"result":{"content":[]}}"#;
    assert!(extract_tool_text(empty, &reply(empty)).is_err());
    assert!(extract_tool_text("not json", &reply("not json")).is_err());
}

#[test]
fn truncate_caps_length() {
    let s = "好".repeat(200);
    let t = truncate(&s, 50);
    assert!(t.chars().count() < 200 && t.contains("已截断"));
    assert_eq!(truncate("短", 10), "短");
}

#[test]
fn limit_feeds_truncates_and_passthrough() {
    let mk = |n: usize| {
        let feeds: Vec<String> = (0..n)
            .map(|i| format!("{{\"feedId\":\"id{i}\",\"xsecToken\":\"t{i}\"}}"))
            .collect();
        format!("{{\"feeds\":[{}]}}", feeds.join(","))
    };
    let out = limit_feeds(&mk(8), 4);
    let v: Value = serde_json::from_str(&out).unwrap();
    let arr = v["feeds"].as_array().unwrap();
    assert_eq!(arr.len(), 4);
    assert_eq!(arr[0]["feedId"], "id0");
    assert_eq!(arr[3]["xsecToken"], "t3");
    // 少于 n：原样保留
    let v2: Value = serde_json::from_str(&limit_feeds(&mk(2), 4)).unwrap();
    assert_eq!(v2["feeds"].as_array().unwrap().len(), 2);
    // 非 JSON / 缺 feeds：原样透传
    assert_eq!(limit_feeds("不是json", 3), "不是json");
    assert_eq!(limit_feeds("{\"other\":1}", 3), "{\"other\":1}");
}

#[test]
fn login_qrcode_parses_image_content() {
    let body = r#"{"result":{"content":[{"type":"text","text":"请扫码"},{"type":"image","mimeType":"image/png","data":"data:image/png;base64,QUJD"}]}}"#;
    let qr = parse_login_qrcode(body, &reply(body)).unwrap();
    assert_eq!(qr.mime_type, "image/png");
    assert_eq!(qr.data, "QUJD");
    assert_eq!(qr.text.as_deref(), Some("请扫码"));
}

#[test]
fn login_qrcode_needs_a_picture() {
    let none = r#"{"result":{"content":[{"type":"text","text":"x"}]}}"#;
    assert!(parse_login_qrcode(none, &reply(none)).is_err());
    assert!(parse_login_qrcode("?", &reply("?")).is_err());
}

#[test]
fn notes_of_travellers_are_searched_and_read() {
    let p = search_payload(&value(r#"{"keyword":"西安","sort_by":"最新","note_type":3}"#)).unwrap();
    assert_eq!(p.keyword, "西安");
    assert_eq!(p.filters, vec![("sort_by".to_string(), "最新".to_string())]);
    assert!(search_payload(&value("{}")).is_err());
    assert_eq!(search_answer("不是json", 2), "不是json");
    let n = note_payload(&value(r#"{"feed_id":"f","xsec_token":"t","limit":99}"#), 4).unwrap();
    assert_eq!((n.feed_id.as_str(), n.xsec_token.as_str()), ("f", "t"));
    assert!(note_payload(&value(r#"{"feed_id":"f"}"#), 4).is_err());
    assert!(likes(5) && !likes(6));
    assert_eq!(note_answer("正文", &None), "正文");
    assert_eq!(note_answer("正文", &Some(Ok(()))), "正文\n\n（已顺手为该笔记点赞）");
    assert_eq!(
        note_answer("正文", &Some(Err("x".into()))),
        "正文\n\n（顺手点赞未成功，不影响阅读：x）"
    );
    assert!(friendly("断开").starts_with("小红书工具失败：断开\n"));
    assert_eq!(after_response(204), CallStep::Read);
    assert_eq!(after_response(404), CallStep::Reconnect);
    assert_eq!(after_response(500), CallStep::Fail);
    assert_eq!(call_failure("500", "b"), "MCP tools/call 失败 500: b");
    assert_eq!(open_failure("500", "b"), "MCP initialize 失败 500: b");
    assert_eq!(reply_body("application/json", "{}".into()).unwrap(), "{}");
    assert_eq!(reply_body("text/event-stream", "data: {}\n".into()).unwrap(), "{}");
}

#[test]
fn hub_placeholder_behaviour() {
    let tool = KnowledgeHub;
    // 未知 kind → 列出可用类型
    let out = tool
        .execute(&value(r#"{"kind": "foo", "province": "吉林", "content": "x"}"#))
        .unwrap();
    assert!(out.contains("无效") && out.contains("location"));
    // 空 content → 拒收
    let out = tool
        .execute(&value(r#"{"kind": "guide", "province": "吉林", "content": "  "}"#))
        .unwrap();
    assert!(out.contains("content 为空"));
    // 正常路径 → 占位提示（不落库）
    let out = tool
        .execute(&value(
            r#"{"kind": "location", "province": "吉林", "content": "{\"二道白河\": [128.1, 42.4]}"}"#,
        ))
        .unwrap();
    assert!(out.contains("未落库") && out.contains("location/吉林"));
    // 缺参数 → Err
    assert!(tool.execute(&value(r#"{"kind": "guide"}"#)).is_err());
}

#[test]
fn update_notes_roundtrip() {
    let tool = UpdateNotes::new("test-notes".into());
    match tool.plan(&value("{\"content\": \"# 已确认信息\\n- 2人\\n- 10月出行\"}")) {
        NotesPlan::Save { content, reply } => {
            assert!(reply.contains("已更新会话记忆"));
            assert!(content.contains("10月出行"));
        }
        _ => panic!("execute 失败"),
    }
}

#[test]
fn update_notes_missing_arg() {
    let tool = UpdateNotes::new("test-notes".into());
    assert!(matches!(tool.plan(&value("{}")), NotesPlan::Fail(_)));
}

#[test]
fn update_notes_line_limit() {
    let tool = UpdateNotes::new("test-notes-limit".into());
    match tool.plan(&value("{\"content\": \"# 旧版\"}")) {
        NotesPlan::Save { content, .. } => assert_eq!(content, "# 旧版"),
        _ => panic!(),
    }
    let long: String = (0..MAX_LINES + 10)
        .map(|i| format!("第{i}行"))
        .collect::<Vec<_>>()
        .join("\\n");
    // 超限：拒收，不产生写入
    match tool.plan(&value(&format!("{{\"content\": \"{long}\"}}"))) {
        NotesPlan::Reject(out) => assert!(out.contains("写入失败"), "超限应被拒收: {out}"),
        _ => panic!("超限应被拒收"),
    }
}

#[test]
fn web_searches() {
    let q = search_web::request(&value(r#"{"query":"西安"}"#)).unwrap();
    assert_eq!((q.query.as_str(), q.kind.as_str(), q.num_results, q.highlights), ("西安", "auto", 5, true));
    assert!(search_web::request(&value(r#"{"query":1}"#)).is_err());
    assert_eq!(search_web::refused("429", "慢"), "搜索失败（429）: 慢");
    let r = search_web::ExaResult {
        title: None,
        url: Some("u".into()),
        highlights: Some(vec!["h1".into(), "h2".into()]),
    };
    assert_eq!(
        search_web::report("西安", &vec![r]),
        "搜索「西安」找到 1 条结果：\n\n1. 无标题\n   链接: u\n   h1\n   h2\n\n"
    );
    assert_eq!(search_web::report("西安", &vec![]), "搜索「西安」未找到结果。");
}

#[test]
fn places_are_found() {
    let q = geocode_query(&value(r#"{"address":"故宫","city":"北京"}"#)).unwrap();
    let params = geocode_params("k", &q);
    assert_eq!(params.len(), 4);
    assert_eq!(params[3], ("city".to_string(), "北京".to_string()));
    assert_eq!(geocode_query(&value("{}")).err().unwrap(), "geocode 缺少 address 参数");
    let reply = |status: &str, location: Option<&str>| GeoReply {
        status: status.into(),
        info: "INVALID".into(),
        places: location
            .map(|l| GeoPlace { location: l.into(), formatted_address: "北京市".into() })
            .into_iter()
            .collect(),
    };
    assert_eq!(
        geocode_answer("故宫", &reply("1", Some("116.4,39.9"))),
        "「故宫」→ 经度 116.4，纬度 39.9（北京市）"
    );
    assert_eq!(
        geocode_answer("故宫", &reply("1", Some("116.4"))),
        "「故宫」→ 经度 116.4，纬度 0（北京市）"
    );
    assert_eq!(geocode_answer("故宫", &reply("1", None)), "未找到「故宫」的坐标");
    assert_eq!(geocode_answer("故宫", &reply("0", None)), "地理编码失败：INVALID");
}

fn live() -> Live {
    Live {
        weather: "晴".into(),
        temperature: "20".into(),
        winddirection: "北".into(),
        windpower: "3".into(),
        humidity: "40".into(),
        reporttime: "T".into(),
    }
}

#[test]
fn weather_is_told() {
    let city = GeoCity { adcode: "110000".into(), province: "北京市".into(), city: "".into() };
    assert_eq!(
        resolve_adcode("1", "", &vec![city], "北京").unwrap(),
        ("110000".to_string(), "北京市".to_string())
    );
    assert_eq!(resolve_adcode("1", "", &vec![], "北京").unwrap_err(), "无法解析城市「北京」的编码");
    assert_eq!(
        resolve_adcode("0", "E", &vec![], "北京").unwrap_err(),
        "高德地理编码返回错误: status=0 info=E"
    );
    assert!(check_weather_status("1", "").is_ok());
    assert_eq!(check_weather_status("0", "E").unwrap_err(), "高德天气接口返回错误: status=0 info=E");
    let cast = Cast {
        date: "2026-10-01".into(),
        week: "4".into(),
        dayweather: "晴".into(),
        nightweather: "云".into(),
        daytemp: "20".into(),
        nighttemp: "9".into(),
        daywind: "北".into(),
        nightwind: "南".into(),
        daypower: "1".into(),
        nightpower: "2".into(),
    };
    let base = Ok(WeatherReply { lives: vec![live()], forecasts: vec![] });
    let all = Ok(WeatherReply {
        lives: vec![],
        forecasts: vec![Forecast { reporttime: "F".into(), casts: vec![cast] }],
    });
    assert_eq!(
        weather_answer("北京", "北京市", &base, &all),
        "北京市 实况天气（T）：\n  天气：晴  气温：20℃  湿度：40%\n  风向：北  风力：3级\n\n未来预报（发布于 F）：\n  2026-10-01 周四：白天 晴 20℃ / 夜间 云 9℃；风 北 1级 / 南 2级"
    );
    let none = Ok(WeatherReply { lives: vec![], forecasts: vec![] });
    assert_eq!(weather_answer("北京", "x", &none, &none), "未查到「北京」的天气数据。");
    assert_eq!(weather_answer("北京", "x", &Err("断".into()), &none), "查询「北京」天气失败：断");
    assert_eq!(weather_answer("北京", "x", &none, &Err("断".into())), "查询「北京」预报失败：断");
    assert_eq!(weather_failed("北京", "断"), "查询「北京」天气失败：断");
    assert_eq!(weather_params("k", "1", "base")[2].1, "base");
    assert!(weather_location(&value("{}")).is_err());
    assert_eq!(week_cn("7"), "日");
    assert_eq!(week_cn("0"), "?");
}

#[test]
fn ways_by_car_are_told() {
    let reply = |status: &str, info: &str, paths: Vec<DrivePath>| DriveReply {
        status: status.into(),
        info: info.into(),
        paths,
    };
    let qps = reply("0", "CUQPS_HAS_EXCEEDED_THE_LIMIT", vec![]);
    assert!(matches!(after_drive_reply(0, &qps), DriveStep::Again { wait_ms: 1200 }));
    assert!(matches!(after_drive_reply(1, &qps), DriveStep::Reply(_)));
    match after_drive_reply(0, &reply("0", "BAD", vec![])) {
        DriveStep::Reply(s) => assert_eq!(s, "驾车路径查询失败：BAD"),
        _ => panic!(),
    }
    match after_drive_reply(0, &reply("1", "", vec![])) {
        DriveStep::Fail(s) => assert_eq!(s, "高德返回无可用驾车路径"),
        _ => panic!(),
    }
    let path = DrivePath { distance: "1".into(), duration: "2".into() };
    match after_drive_reply(0, &reply("1", "", vec![path])) {
        DriveStep::Found { distance, duration } => assert_eq!((distance.as_str(), duration.as_str()), ("1", "2")),
        _ => panic!(),
    }
    assert_eq!(
        drive_answer("甲", "乙", "", "", &Some(("1.5".into(), "9".into()))),
        "甲 → 乙：驾车约 1.5 km，约 9 分钟（打车口径）"
    );
    assert_eq!(
        drive_answer("甲", "乙", "a\"", "中", &None),
        "驾车路径查询失败：响应数据异常（distance=\"a\\\"\", duration=\"中\"）"
    );
    assert_eq!(drive_params("k", "o", "d")[3], ("extensions".to_string(), "base".to_string()));
    assert_eq!(label(&Some(" 甲 ".into()), "p"), "甲");
    assert_eq!(label(&Some("  ".into()), "p"), "p");
    assert_eq!(label(&None, "p"), "p");
}

#[test]
fn few_comments_are_read() {
    let limit = |extra: &str| -> Option<u64> {
        let args = value(&format!(r#"{{"feed_id":"f","xsec_token":"t"{extra}}}"#));
        note_payload(&args, 4).unwrap().limit
    };
    assert_eq!(limit(""), Some(4));
    assert_eq!(limit(r#","limit":99"#), Some(10));
    assert_eq!(limit(r#","limit":7"#), Some(7));
    assert_eq!(limit(r#","load_all_comments":true"#), Some(10));
    assert_eq!(limit(r#","load_all_comments":true,"limit":2"#), Some(2));
    assert_eq!(limit(r#","load_all_comments":false,"limit":2"#), None);
}
