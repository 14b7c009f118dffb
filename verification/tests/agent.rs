use cheaptrip::agent::{
    after_step, begin_turn, llm_tool, name_first_message, parse_args, should_name_first_message,
    title_from_first_message, Agent, AgentEvent, Route, StepEnd,
};
use cheaptrip::llm::{FunctionCall, Message, Tool, ToolCall, Usage};
use cheaptrip::mode::{mode_key, parse_quick_mode, SetMode};
use cheaptrip::phase::{phase_name, SetPhase};
use cheaptrip::prompt::{
    beijing_date_at, beijing_day_at, current_beijing_date, skill_docs_for, PromptDocs,
    DISCOVERY_MD, HOTEL_MD, MAP_MD, SPECIAL_MD, XHS_MD,
};
use cheaptrip::session::{QuickMode, Session, WorkflowMode};
use serde_json::Value;

fn value(s: &str) -> Value {
    serde_json::from_str(s).unwrap()
}

fn registered(name: &str) -> Tool {
    llm_tool(name, "d", value(r#"{"type":"object"}"#))
}

fn call(name: &str, arguments: Option<&str>) -> ToolCall {
    ToolCall {
        id: "call_1".into(),
        kind: "function".into(),
        function: FunctionCall {
            name: name.into(),
            arguments: arguments.map(|s| s.into()),
        },
    }
}

fn names(tools: &[Tool]) -> Vec<&str> {
    tools.iter().map(|t| t.function.name.as_str()).collect()
}

fn docs() -> PromptDocs {
    PromptDocs {
        system_core: "# 总则\n流程总览\n窄例外：可直接调用 search_trains".into(),
        phases: (0..6).map(|i| format!("# 阶段{i}\n阶段{i}的指令")).collect(),
        quick_core: "# 快捷任务入口".into(),
        quick: [
            "自动识别：火车/高铁/动车/车次/余票/时刻 → schedule；不得在 auto 里直接查车或误分到 `ctrip`；另建“完整攻略”会话",
            "轻量种草",
            "快速排程",
            "快速地图",
            "小红书快捷总结：拟人限流",
            "携程候选核验",
            "个人知识库预留",
        ]
        .iter()
        .map(|s| s.to_string())
        .collect(),
        map: "M-DOC".into(),
        special: "S-DOC".into(),
        hotel: "H-DOC".into(),
        discovery: "D-DOC".into(),
        xhs: "X-DOC".into(),
    }
}

fn prompt_for(session: &Session, xhs_enabled: bool) -> String {
    Agent::prompt_for(session, xhs_enabled, &docs(), &current_beijing_date(), &None)
}

fn user_message(s: &str) -> Message {
    Message {
        role: "user".into(),
        content: Some(s.into()),
        tool_calls: None,
        tool_call_id: None,
        reasoning_content: None,
    }
}

fn quick_session(mode: QuickMode) -> Session {
    let mut session = Session::new("test-agent-mode".into());
    session.quick_mode = mode;
    session
}

#[test]
fn quick_tool_allowlist_matches_mode_boundaries() {
    let cases = [
        (QuickMode::Auto, &["set_mode", "update_notes"][..]),
        (
            QuickMode::Inspiration,
            &["search_web", "search_xhs", "read_xhs_note"][..],
        ),
        (
            QuickMode::Schedule,
            &[
                "search_trains",
                "get_weather",
                "route_check",
                "generate_city_map",
            ][..],
        ),
        (
            QuickMode::Mapping,
            &["geocode", "route_check", "generate_overview_map"][..],
        ),
        (QuickMode::Xhs, &["search_xhs", "read_xhs_note"][..]),
        (
            QuickMode::Ctrip,
            &["search_web", "search_hotel_reviews"][..],
        ),
        (QuickMode::Knowledge, &["set_mode"][..]),
    ];
    for (mode, expected) in cases {
        let allowed = Agent::allowed_tool_names(&quick_session(mode));
        assert!(
            allowed.contains(&"search_trains"),
            "{mode:?} 应允许查 12306"
        );
        for name in expected {
            assert!(allowed.contains(name), "{mode:?} 应允许 {name}");
        }
        assert!(!allowed.contains(&"set_phase"), "{mode:?} 不得进入阶段流程");
    }
}

#[test]
fn full_mode_allows_phase_tools_but_not_set_mode() {
    let mut session = Session::new("test-agent-full".into());
    session.workflow_mode = WorkflowMode::Full;
    session.phase = 3;
    let allowed = Agent::allowed_tool_names(&session);
    assert!(allowed.contains(&"set_phase"));
    assert!(allowed.contains(&"generate_city_map"));
    assert!(!allowed.contains(&"set_mode"));
}

#[test]
fn full_phase1_allows_candidate_location_map() {
    let mut session = Session::new("test-agent-full-phase1".into());
    session.workflow_mode = WorkflowMode::Full;
    session.phase = 1;
    let allowed = Agent::allowed_tool_names(&session);
    assert!(allowed.contains(&"generate_overview_map"));
}

#[test]
fn full_all_phases_allow_trains() {
    for phase in 0..=5 {
        let mut session = Session::new(format!("test-full-phase-{phase}"));
        session.workflow_mode = WorkflowMode::Full;
        session.phase = phase;
        let allowed = Agent::allowed_tool_names(&session);
        assert!(
            allowed.contains(&"search_trains"),
            "阶段 {phase} 应允许查 12306"
        );
    }
}

#[test]
fn physical_registration_limits_visible_tools() {
    let tools = vec![registered("set_mode"), registered("search_trains")];
    let visible = Agent::llm_tools_for(&quick_session(QuickMode::Inspiration), &tools);
    let names: Vec<_> = visible
        .iter()
        .map(|tool| tool.function.name.as_str())
        .collect();
    assert_eq!(names, vec!["set_mode", "search_trains"]);
    assert!(!names.contains(&"search_xhs"));
    assert!(!names.contains(&"search_hotel_reviews"));
}

#[test]
fn dispatch_permission_check_rejects_cross_mode_calls() {
    let quick = quick_session(QuickMode::Mapping);
    assert!(Agent::ensure_tool_allowed(&quick, "set_phase").is_err());
    assert!(Agent::ensure_tool_allowed(&quick, "set_mode").is_ok());

    let mut full = Session::new("test-agent-full-dispatch".into());
    full.workflow_mode = WorkflowMode::Full;
    assert!(Agent::ensure_tool_allowed(&full, "set_phase").is_ok());
    assert!(Agent::ensure_tool_allowed(&full, "set_mode").is_err());
    assert!(Agent::ensure_tool_allowed(&full, "not_registered").is_err());
}

#[test]
fn auto_mode_switch_changes_next_request_allowlist() {
    let tools = vec![registered("set_mode"), registered("search_web")];
    let mut session = quick_session(QuickMode::Auto);
    assert_eq!(names(&Agent::llm_tools_for(&session, &tools)), vec!["set_mode"]);

    let out = Agent::apply_quick_mode(&mut session, &value(r#"{"mode": "inspiration"}"#))
        .expect("快捷模式切换应成功");
    assert_eq!(session.quick_mode, QuickMode::Inspiration);
    assert!(out.contains("inspiration"));
    assert_eq!(
        names(&Agent::llm_tools_for(&session, &tools)),
        vec!["set_mode", "search_web"]
    );
}

#[test]
fn full_mode_cannot_apply_set_mode() {
    let mut session = Session::new("test-agent-full-mode".into());
    session.workflow_mode = WorkflowMode::Full;
    assert!(Agent::apply_quick_mode(&mut session, &value(r#"{"mode": "map"}"#)).is_err());
    assert_eq!(session.workflow_mode, WorkflowMode::Full);
}

#[test]
fn quick_prompt_isolated_from_full_phase_prompt() {
    let mut quick = quick_session(QuickMode::Schedule);
    quick.phase = 4;
    let mut full = Session::new("test-agent-full".into());
    full.phase = 4;
    full.workflow_mode = WorkflowMode::Full;
    let quick_prompt = prompt_for(&quick, false);
    let full_prompt = prompt_for(&full, false);
    assert!(quick_prompt.contains("快速排程"));
    assert!(!quick_prompt.contains("阶段 4"));
    assert!(full_prompt.contains("阶段4"));
    assert!(!full_prompt.contains("快捷任务入口"));
}

#[test]
fn train_request_is_visible_to_llm_in_quick_and_full_modes() {
    let tools = vec![registered("search_trains")];
    let mut quick = quick_session(QuickMode::Schedule);
    quick.messages.push(user_message("帮我查郑州到西安的高铁"));
    let quick_names = Agent::llm_tools_for(&quick, &tools);
    assert_eq!(quick_names.len(), 1);
    assert_eq!(quick_names[0].function.name, "search_trains");

    let mut full = Session::new("test-train-full".into());
    full.workflow_mode = WorkflowMode::Full;
    let full_names = Agent::llm_tools_for(&full, &tools);
    assert_eq!(full_names.len(), 1);
    assert_eq!(full_names[0].function.name, "search_trains");
}

#[test]
fn prompt_does_not_duplicate_new_session_greeting() {
    let quick = quick_session(QuickMode::Auto);
    let quick_prompt = prompt_for(&quick, false);
    assert!(!quick_prompt.contains("首轮模式说明"));

    let mut continued = quick;
    continued.messages.push(Message {
        role: "assistant".into(),
        content: Some("已开始处理".into()),
        tool_calls: None,
        tool_call_id: None,
        reasoning_content: None,
    });
    assert!(!prompt_for(&continued, false).contains("首轮模式说明"));

    let mut full = Session::new("test-first-turn-full".into());
    full.workflow_mode = WorkflowMode::Full;
    let full_prompt = prompt_for(&full, false);
    assert!(!full_prompt.contains("首轮模式说明"));
}

#[test]
fn prompt_exposes_auto_train_routing() {
    let auto = quick_session(QuickMode::Auto);
    let auto_prompt = prompt_for(&auto, false);
    for keyword in ["火车", "高铁", "动车", "车次", "余票", "时刻"] {
        assert!(auto_prompt.contains(keyword), "自动路由提示缺少 {keyword}");
    }
    assert!(auto_prompt.contains("schedule"));
    assert!(auto_prompt.contains("不得在 auto 里直接查车或误分到 `ctrip`"));
    assert!(auto_prompt.contains("另建“完整攻略”会话"));

    let mut full = Session::new("test-naming-full".into());
    full.workflow_mode = WorkflowMode::Full;
    let full_prompt = prompt_for(&full, false);
    assert!(full_prompt.contains("窄例外"));
    assert!(full_prompt.contains("search_trains"));
}

#[test]
fn first_message_title_is_deterministic_and_preserves_existing_names() {
    assert_eq!(
        title_from_first_message("  请帮我\n规划   西安  "),
        "规划 西安"
    );
    assert_eq!(
        title_from_first_message("可以帮我查郑州到西安的高铁吗？"),
        "查郑州到西安的高铁吗"
    );
    assert_eq!(title_from_first_message("我想"), "新对话");
    assert_eq!(title_from_first_message("？！"), "新对话");

    let long = title_from_first_message("请帮我北京上海广州深圳成都重庆西安杭州南京");
    assert_eq!(long.chars().count(), 15);
    assert_eq!(long, "北京上海广州深圳成都重庆西安杭");

    for mode in [QuickMode::Auto, QuickMode::Schedule] {
        let mut session = quick_session(mode);
        name_first_message(&mut session, "帮我查明天的高铁");
        assert_eq!(session.name.as_deref(), Some("查明天的高铁"));
    }

    let mut full = Session::new("test-agent-full-first-message".into());
    full.workflow_mode = WorkflowMode::Full;
    name_first_message(&mut full, "帮我规划西安旅行");
    assert_eq!(full.name.as_deref(), Some("规划西安旅行"));

    let mut manual = quick_session(QuickMode::Auto);
    manual.name = Some("人工名称".into());
    name_first_message(&mut manual, "帮我查高铁");
    assert_eq!(manual.name.as_deref(), Some("人工名称"));

    let mut old = quick_session(QuickMode::Auto);
    old.messages.push(user_message("旧消息"));
    name_first_message(&mut old, "新消息");
    assert!(old.name.is_none());
}

#[test]
fn prompt_includes_current_beijing_date() {
    let session = Session::new("prompt-current-date-test".into());
    let prompt = prompt_for(&session, false);
    assert!(prompt.contains("当前日期（北京时间）："));
    assert!(prompt.contains(&current_beijing_date()));
    assert!(prompt.contains("不得擅自使用过去的年份"));
}

#[test]
fn quick_prompts_cover_all_modes_without_full_workflow_docs() {
    let cases = [
        (QuickMode::Auto, "自动识别"),
        (QuickMode::Inspiration, "轻量种草"),
        (QuickMode::Schedule, "快速排程"),
        (QuickMode::Mapping, "快速地图"),
        (QuickMode::Xhs, "小红书快捷总结"),
        (QuickMode::Ctrip, "携程候选核验"),
        (QuickMode::Knowledge, "个人知识库预留"),
    ];
    for (mode, heading) in cases {
        let session = quick_session(mode);
        let prompt = prompt_for(&session, true);
        assert!(prompt.contains(heading), "{mode:?} 应挂载对应快捷 prompt");
        assert!(
            !prompt.contains("# 阶段0"),
            "{mode:?} 不得挂载完整攻略阶段 prompt"
        );
        assert!(
            !prompt.contains("# 阶段1"),
            "{mode:?} 不得挂载完整攻略阶段 prompt"
        );
        assert!(
            !prompt.contains("流程总览"),
            "{mode:?} 不得挂载完整攻略总则"
        );
    }
}

#[test]
fn xhs_prompt_reflects_service_availability() {
    let session = quick_session(QuickMode::Xhs);
    let unavailable = prompt_for(&session, false);
    assert!(unavailable.contains("当前环境未启用小红书服务"));

    let available = prompt_for(&session, true);
    assert!(!available.contains("当前环境未启用小红书服务"));
    assert!(available.contains("拟人限流"));
}

#[test]
fn auto_fixed_tool_calls_route_to_each_quick_mode() {
    let cases = [
        ("inspiration", QuickMode::Inspiration, "轻量种草"),
        ("schedule", QuickMode::Schedule, "快速排程"),
        ("map", QuickMode::Mapping, "快速地图"),
        ("xhs", QuickMode::Xhs, "小红书快捷总结"),
        ("ctrip", QuickMode::Ctrip, "携程候选核验"),
        ("knowledge", QuickMode::Knowledge, "个人知识库预留"),
    ];
    for (raw_mode, expected_mode, heading) in cases {
        let mut session = quick_session(QuickMode::Auto);
        let args = value(&format!("{{\"mode\": \"{raw_mode}\"}}"));
        Agent::apply_quick_mode(&mut session, &args).expect("auto 的固定 set_mode 调用应成功");
        assert_eq!(session.quick_mode, expected_mode);
        let prompt = prompt_for(&session, false);
        assert!(prompt.contains(heading), "{raw_mode} 应立即切换 prompt");
    }
}

#[test]
fn skill_docs_mapping() {
    // 未启用小红书
    assert_eq!(skill_docs_for(1, false), vec![SPECIAL_MD]);
    assert_eq!(skill_docs_for(2, false), vec![DISCOVERY_MD, MAP_MD]);
    assert_eq!(
        skill_docs_for(3, false),
        vec![DISCOVERY_MD, MAP_MD, SPECIAL_MD, HOTEL_MD]
    );
    assert_eq!(
        skill_docs_for(4, false),
        vec![HOTEL_MD, DISCOVERY_MD, SPECIAL_MD]
    );
    assert_eq!(skill_docs_for(5, false), vec![MAP_MD, SPECIAL_MD]);
    // 阶段0种草闲聊：不挂任何技能文档
    assert!(skill_docs_for(0, false).is_empty());
    assert!(skill_docs_for(0, true).is_empty(), "阶段0不挂 xhs.md");
    // 越界兜底：超大值夹到阶段5
    assert_eq!(skill_docs_for(9, false), vec![MAP_MD, SPECIAL_MD]);
    // 启用小红书：阶段1-5追加 xhs.md
    for phase in 1..=5u8 {
        assert!(skill_docs_for(phase, true).contains(&XHS_MD));
    }
}

#[test]
fn accepts_only_actual_quick_modes() {
    assert_eq!(
        parse_quick_mode(&value(r#"{"mode": "map"}"#)).unwrap(),
        QuickMode::Mapping
    );
    assert!(parse_quick_mode(&value(r#"{"mode": "auto"}"#)).is_err());
    assert!(parse_quick_mode(&value(r#"{"mode": "full"}"#)).is_err());
    assert!(parse_quick_mode(&value(r#"{"mode": "bogus"}"#)).is_err());
    assert!(parse_quick_mode(&value("{}")).is_err());
}

#[test]
fn full_prompt_is_put_together_in_order() {
    let mut full = Session::new("s".into());
    full.workflow_mode = WorkflowMode::Full;
    full.phase = 2;
    let notes = Some("- 2人".to_string());
    let p = Agent::prompt_for(&full, true, &docs(), "2026-10-01", &notes);
    assert_eq!(
        p,
        "# 总则\n流程总览\n窄例外：可直接调用 search_trains\n\n---\n\n# 阶段2\n阶段2的指令\n\n---\n\nD-DOC\n\n---\n\nM-DOC\n\n---\n\nX-DOC\n\n---\n\n## 当前时间基准\n当前日期（北京时间）：2026-10-01。用户只写月日时，必须结合该日期推断最近的未来日期；不得擅自使用过去的年份。\n\n---\n\n# 会话记忆（当前已确认信息，经 update_notes 工具维护）\n\n- 2人"
    );
    // Notes of blanks are left out, and a phase beyond the last counts as the last.
    full.phase = 9;
    let q = Agent::prompt_for(&full, false, &docs(), "2026-10-01", &Some(" \n ".into()));
    assert!(q.contains("# 阶段5") && !q.contains("会话记忆"));
}

#[test]
fn tools_of_a_task_stay_out_of_other_tasks() {
    let xhs = quick_session(QuickMode::Xhs);
    let knowledge = quick_session(QuickMode::Knowledge);
    assert!(Agent::ensure_tool_allowed(&xhs, "search_xhs").is_ok());
    assert!(Agent::ensure_tool_allowed(&knowledge, "search_xhs").is_err());
    let tools = vec![registered("search_xhs"), registered("set_mode")];
    assert_eq!(names(&Agent::llm_tools_for(&knowledge, &tools)), vec!["set_mode"]);
}

#[test]
fn calls_are_routed() {
    let tools = vec![registered("search_web"), registered("set_mode")];
    let mut session = quick_session(QuickMode::Inspiration);
    match Agent::route(&mut session, &call("search_web", Some(r#"{"query":"x"}"#)), &tools) {
        Route::Execute { tool, args } => {
            assert_eq!(tool, 0);
            assert_eq!(args, value(r#"{"query":"x"}"#));
        }
        _ => panic!(),
    }
    // A task is chosen on the spot, without a tool being run.
    match Agent::route(&mut session, &call("set_mode", Some(r#"{"mode":"xhs"}"#)), &tools) {
        Route::Answered { phase, .. } => assert!(phase.is_none()),
        _ => panic!(),
    }
    assert_eq!(session.quick_mode, QuickMode::Xhs);
    assert!(matches!(
        Agent::route(&mut session, &call("set_phase", Some(r#"{"phase":2}"#)), &tools),
        Route::Refused(_)
    ));
    // Arguments that are no JSON are refused, with what the parser says.
    match Agent::route(&mut session, &call("search_xhs", Some("{")), &tools) {
        Route::Refused(s) => assert!(s.contains("search_xhs")),
        _ => panic!(),
    }
    let mut full = Session::new("f".into());
    full.workflow_mode = WorkflowMode::Full;
    match Agent::route(
        &mut full,
        &call("set_phase", Some(r#"{"phase":3}"#)),
        &vec![registered("set_phase")],
    ) {
        Route::Answered { phase, .. } => assert_eq!(phase, Some(3)),
        _ => panic!(),
    }
    assert_eq!(full.phase, 3);
}

#[test]
fn phases_beyond_the_last_are_not_entered() {
    let tools = vec![registered("set_phase")];
    let mut full = Session::new("f".into());
    full.workflow_mode = WorkflowMode::Full;
    full.phase = 2;
    // Of a number the lowest byte counts.
    for (n, byte) in [("6", 6), ("255", 255), ("262", 6), ("18446744073709551615", 255)] {
        let args = format!("{{\"phase\":{n}}}");
        match Agent::route(&mut full, &call("set_phase", Some(&args)), &tools) {
            Route::Answered { out, phase } => {
                assert_eq!(out, format!("已记录进入阶段 {byte}，该阶段详细工作指令已生效"));
                assert!(phase.is_none());
            }
            _ => panic!(),
        }
        assert_eq!(full.phase, 2);
    }
    match Agent::route(&mut full, &call("set_phase", Some(r#"{"phase":259}"#)), &tools) {
        Route::Answered { out, phase } => {
            assert_eq!(out, "已记录进入阶段 3，该阶段详细工作指令已生效");
            assert_eq!(phase, Some(3));
        }
        _ => panic!(),
    }
    assert_eq!(full.phase, 3);
    match Agent::route(&mut full, &call("set_phase", Some(r#"{"phase":5}"#)), &tools) {
        Route::Answered { out, phase } => {
            assert_eq!(out, "已记录进入阶段 5，该阶段详细工作指令已生效");
            assert_eq!(phase, Some(5));
        }
        _ => panic!(),
    }
    assert_eq!(full.phase, 5);
    // Without a number the first phase is meant.
    match Agent::route(&mut full, &call("set_phase", Some("{}")), &tools) {
        Route::Answered { phase, .. } => assert_eq!(phase, Some(0)),
        _ => panic!(),
    }
}

#[test]
fn arguments_are_parsed() {
    assert_eq!(parse_args(&None, "t").unwrap(), value("{}"));
    assert_eq!(
        parse_args(&Some(r#"{"a":[1,true,null,"x"]}"#.into()), "t").unwrap(),
        value(r#"{"a":[1,true,null,"x"]}"#)
    );
    let e = parse_args(&Some("nope".into()), "geocode").unwrap_err();
    assert!(e.starts_with("解析工具 geocode 参数失败: nope"), "{e}");
}

#[test]
fn answers_are_kept_with_their_call() {
    let mut s = Session::new("a".into());
    Agent::answer(&mut s, &call("x", None), "结果".into());
    let last = s.messages.last().unwrap();
    assert_eq!(last.role, "tool");
    assert_eq!(last.content.as_deref(), Some("结果"));
    assert_eq!(last.tool_call_id.as_deref(), Some("call_1"));
}

#[test]
fn a_turn_begins_with_the_message() {
    let mut s = Session::new("a".into());
    assert!(should_name_first_message(&s));
    begin_turn(&mut s, "帮我规划西安旅行");
    assert_eq!(s.name.as_deref(), Some("规划西安旅行"));
    assert_eq!(s.messages.last().unwrap().role, "user");
    assert!(!should_name_first_message(&s));
}

#[test]
fn steps_are_counted() {
    assert!(matches!(after_step(0, 0), StepEnd::Over));
    assert!(matches!(after_step(0, 2), StepEnd::Again { step: 1 }));
    assert!(matches!(after_step(19, 1), StepEnd::TooMany));
}

#[test]
fn tasks_and_phases_have_names() {
    for (m, key) in [
        (QuickMode::Inspiration, "inspiration"),
        (QuickMode::Schedule, "schedule"),
        (QuickMode::Mapping, "map"),
        (QuickMode::Xhs, "xhs"),
        (QuickMode::Ctrip, "ctrip"),
        (QuickMode::Knowledge, "knowledge"),
    ] {
        assert_eq!(mode_key(m), key);
        let args = value(&format!("{{\"mode\":\"{key}\"}}"));
        assert_eq!(parse_quick_mode(&args).unwrap(), m);
        assert!(SetMode.execute(&args).is_ok());
    }
    assert!(SetMode.execute(&value("{}")).is_err());
    assert!(phase_name(0).contains("种草"));
    assert!(SetPhase.execute(&value(r#"{"phase":1}"#)).contains('1'));
}

#[test]
fn beijing_is_eight_hours_ahead() {
    // 2026-09-30T15:59:59Z and one second later.
    assert_eq!(beijing_date_at(1_790_783_999), "2026-09-30");
    assert_eq!(beijing_date_at(1_790_784_000), "2026-10-01");
    assert_eq!(beijing_day_at(0), 0);
    assert_eq!(beijing_day_at(16 * 3600), 1);
}

#[test]
fn events_are_printed() {
    let u = Usage {
        prompt_tokens: 1,
        completion_tokens: 2,
        total_tokens: 3,
    };
    assert_eq!(
        AgentEvent::Step { n: 2 }.print(),
        ("\n— LLM 调用 #2（流式）—\n".to_string(), false)
    );
    assert_eq!(AgentEvent::Content("好".into()).print(), ("好".to_string(), false));
    assert_eq!(
        AgentEvent::Reasoning("想".into()).print(),
        ("\x1b[2m想\x1b[0m".to_string(), true)
    );
    assert_eq!(
        AgentEvent::ToolCall { name: "geocode".into(), args: "{}".into() }.print().0,
        "  → 执行工具 geocode ({})\n"
    );
    assert_eq!(AgentEvent::ToolResult("r".into()).print().0, "  ← r\n");
    assert_eq!(AgentEvent::PhaseChange { phase: 4 }.print().0, "  [进入阶段 4]\n");
    assert_eq!(AgentEvent::Done("d".into()).print().0, "\n[完成] d\n");
    assert_eq!(AgentEvent::Usage(u).print().0, "  [tokens in·out·total=1·2·3]\n");
    assert_eq!(AgentEvent::Error("e".into()).print().0, "\n[错误] e\n");
}

#[test]
fn requests_hold_prompt_history_and_tools() {
    let agent = Agent {
        model: "m".into(),
        temperature: 0.5f32.to_bits(),
        max_tokens: 77,
        xhs_enabled: false,
    };
    let session = quick_session(QuickMode::Auto);
    let extra = vec![user_message("再来")];
    let r = agent.request("P".into(), &session, &extra, &vec![registered("set_mode"), registered("geocode")]);
    assert_eq!(r.model, "m");
    assert_eq!(r.messages.len(), 3);
    assert_eq!(r.messages[0].role, "system");
    assert_eq!(r.messages[0].content.as_deref(), Some("P"));
    assert_eq!(r.messages[2].content.as_deref(), Some("再来"));
    assert_eq!(names(&r.tools), vec!["set_mode"]);
    assert_eq!(r.temperature.map(f32::from_bits), Some(0.5));
    assert_eq!(r.max_tokens, Some(77));
}
