use cheaptrip::agent::AgentEvent;
use cheaptrip::clock::Timestamp;
use cheaptrip::llm::{Message, Usage};
use cheaptrip::markup::{
    is_table_row, md_inline, md_line, render_table_row, wrap_lines, Color, LogLine, Role, Span,
    Style,
};
use cheaptrip::screen::{
    ago, ago_at, input_height, new_session_id, session_id_at, session_line, PickAction, Picker,
};
use cheaptrip::session::{QuickMode, SessionMeta, WorkflowMode};
use cheaptrip::ui::{handle_agent_event, handle_key, App, Key, KeyAction, KeyCode};

fn test_app(input: &str, cursor: usize) -> App {
    App {
        log: Vec::new(),
        cur_content: String::new(),
        cur_reasoning: String::new(),
        input: input.to_string(),
        input_cursor: cursor,
        running: false,
        usage: Usage::default(),
        cancellable: false,
        model: "test-model".into(),
        phase: 0,
        should_quit: false,
        switch_session: false,
        scroll: None,
        bottom_scroll: 0,
        pending_tools: Vec::new(),
    }
}

fn key(code: KeyCode) -> Key {
    Key { code, control: false }
}

fn control(c: char) -> Key {
    Key { code: KeyCode::Char(c), control: true }
}

fn meta(id: &str, name: Option<&str>) -> SessionMeta {
    SessionMeta {
        id: id.into(),
        messages: 2,
        prompt_tokens: 1,
        completion_tokens: 2,
        total_tokens: 3,
        updated_at: Some(Timestamp { secs: 100, nanos: 0 }),
        name: name.map(|s| s.into()),
        owner_user_id: None,
        workflow_mode: WorkflowMode::Quick,
        quick_mode: QuickMode::Auto,
    }
}

fn texts(line: &[Span]) -> Vec<&str> {
    line.iter().map(|s| s.text.as_str()).collect()
}

fn joined(lines: &[Vec<Span>]) -> Vec<String> {
    lines.iter().map(|l| texts(l).concat()).collect()
}

#[test]
fn ctrl_enter_inserts_newline_at_cursor() {
    let mut app = test_app("甲乙", 1);
    handle_key(
        &mut app,
        Key { code: KeyCode::Enter, control: true },
    );
    assert_eq!(app.input, "甲\n乙");
    assert_eq!(app.input_cursor, 2);
    assert!(!app.running);
}

#[test]
fn keys_edit_the_input() {
    let mut app = test_app("甲乙", 1);
    handle_key(&mut app, key(KeyCode::Char('x')));
    assert_eq!((app.input.as_str(), app.input_cursor), ("甲x乙", 2));
    handle_key(&mut app, key(KeyCode::Backspace));
    assert_eq!((app.input.as_str(), app.input_cursor), ("甲乙", 1));
    handle_key(&mut app, key(KeyCode::Delete));
    assert_eq!((app.input.as_str(), app.input_cursor), ("甲", 1));
    handle_key(&mut app, control('a'));
    handle_key(&mut app, key(KeyCode::Left));
    assert_eq!(app.input_cursor, 0);
    handle_key(&mut app, control('e'));
    handle_key(&mut app, key(KeyCode::Right));
    assert_eq!(app.input_cursor, 1);
    handle_key(&mut app, control('j'));
    assert_eq!(app.input, "甲\n");
    handle_key(&mut app, control('q'));
    assert!(app.should_quit && !app.switch_session);
}

#[test]
fn a_message_is_sent_once() {
    let mut app = test_app(" 去西安 ", 0);
    match handle_key(&mut app, key(KeyCode::Enter)) {
        KeyAction::Submit(s) => assert_eq!(s, " 去西安 "),
        _ => panic!(),
    }
    assert!(app.running && app.cancellable && app.input.is_empty());
    assert!(matches!(handle_key(&mut app, key(KeyCode::Enter)), KeyAction::Nothing));
    handle_key(&mut app, key(KeyCode::Char('x')));
    assert!(app.input.is_empty());
    assert!(matches!(handle_key(&mut app, control('c')), KeyAction::Cancel));
    let mut blank = test_app("  ", 0);
    assert!(matches!(handle_key(&mut blank, key(KeyCode::Enter)), KeyAction::Nothing));
}

#[test]
fn scrolling_starts_from_the_end() {
    let mut app = test_app("", 0);
    assert_eq!(app.follow(30, 10), 20);
    handle_key(&mut app, key(KeyCode::Up));
    assert_eq!(app.scroll, Some(19));
    handle_key(&mut app, key(KeyCode::PageUp));
    assert_eq!(app.follow(30, 10), 9);
    assert!(app.title().contains("手动滚动中"));
    handle_key(&mut app, key(KeyCode::PageDown));
    handle_key(&mut app, key(KeyCode::Down));
    assert_eq!(app.scroll, Some(20));
    handle_key(&mut app, key(KeyCode::End));
    assert_eq!(app.follow(30, 10), 20);
    assert_eq!(app.follow(3, 10), 0);
}

#[test]
fn results_go_to_calls_in_order() {
    let mut app = test_app("", 0);
    let call = |n: &str| AgentEvent::ToolCall { name: n.into(), args: "{}".into() };
    handle_agent_event(&mut app, &call("search_web"));
    handle_agent_event(&mut app, &call("geocode"));
    handle_agent_event(&mut app, &AgentEvent::ToolResult("很长".into()));
    handle_agent_event(&mut app, &AgentEvent::ToolResult("坐标".into()));
    let log: Vec<_> = app.log.iter().map(|l| l.text.as_str()).collect();
    assert_eq!(
        log,
        vec![
            "→ search_web({})",
            "→ geocode({})",
            "← search_web 完成（结果已供分析，聊天框不展示）",
            "← 坐标"
        ]
    );
    assert!(app.pending_tools.is_empty());
}

#[test]
fn events_change_the_screen() {
    let mut app = test_app("", 0);
    app.running = true;
    app.cancellable = true;
    handle_agent_event(&mut app, &AgentEvent::Step { n: 0 });
    assert_eq!(app.log[0].text, "— 思考中…（第 1 次调用）—");
    handle_agent_event(&mut app, &AgentEvent::Content("你".into()));
    handle_agent_event(&mut app, &AgentEvent::Content("好".into()));
    handle_agent_event(&mut app, &AgentEvent::Reasoning("想".into()));
    assert_eq!((app.cur_content.as_str(), app.cur_reasoning.as_str()), ("你好", "想"));
    handle_agent_event(&mut app, &AgentEvent::PhaseChange { phase: 3 });
    assert_eq!(app.phase, 3);
    handle_agent_event(&mut app, &AgentEvent::Done("".into()));
    assert!(!app.running && !app.cancellable && app.cur_content.is_empty());
    assert_eq!(app.log[1].text, "你好");
    handle_agent_event(&mut app, &AgentEvent::Error("断".into()));
    assert_eq!(app.log[2].text, "[错误/取消] 断");
    let long = "x".repeat(81);
    handle_agent_event(&mut app, &AgentEvent::ToolCall { name: "t".into(), args: long });
    assert!(app.log[3].text.ends_with("…)"));
}

#[test]
fn the_screen_is_laid_out() {
    let history = vec![
        Message::plain("assistant", "**你**好".into()),
        Message::plain("user", "第一\n第二".into()),
    ];
    let app = App::open("m".into(), &history, Usage::default(), 0);
    assert_eq!(joined(&app.chat()), vec!["拾光者: 你好", "你: 第一", "  第二"]);
    assert_eq!(
        app.status("0.0000").contains("| 就绪 | tokens in·out·total = 0·0·0 | ¥0.0000 "),
        true
    );
    let typed = test_app("一二三四五", 5);
    assert_eq!(typed.prompt(), "输入消息，回车发送 / Ctrl-Enter 换行> ");
    assert!(typed.input_box(4).len() >= 3);
    assert_eq!(input_height(0), 4);
    assert_eq!(input_height(2), 5);
}

#[test]
fn markup_is_shown() {
    let base = Style::none();
    let spans = md_inline("a **b** *c* `d`", base);
    assert_eq!(texts(&spans).concat(), "a b c d");
    assert!(spans.iter().any(|s| s.text == "b" && s.style.bold));
    assert!(spans.iter().any(|s| s.text == "c" && s.style.italic));
    assert_eq!(texts(&md_line("# 标题", base)).concat(), "标题");
    assert!(texts(&md_line("- 项", base)).concat().contains("项"));
    for row in ["| a | b |", "a | b", "|a|", "| a", "a |", "  | a  ", "|", "|---|---|"] {
        assert!(is_table_row(row), "{row}");
    }
    for other in ["", "  ", "a b", "- a"] {
        assert!(!is_table_row(other), "{other}");
    }
    assert!(texts(&render_table_row("| a | b |", base)).concat().contains('a'));
    let lines = LogLine::render(&LogLine { role: Role::Tool, text: "**x**".into() });
    assert_eq!(joined(&lines), vec!["工具: **x**"]);
    assert_eq!(lines[0][0].style.fg, Some(Color::Magenta));
}

#[test]
fn lines_are_wrapped_by_columns() {
    let line = |s: &str| vec![vec![Span { text: s.into(), style: Style::none() }]];
    // A Chinese character takes two columns, a letter one.
    assert_eq!(joined(&wrap_lines(&line("中文abc"), 4)), vec!["中文", "abc"]);
    assert_eq!(joined(&wrap_lines(&line("a中b"), 2)), vec!["a", "中", "b"]);
    assert_eq!(joined(&wrap_lines(&line("短"), 10)), vec!["短"]);
    assert_eq!(joined(&wrap_lines(&line("e\u{301}x"), 1)), vec!["e", "\u{301}x"]);
}

#[test]
fn spans_share_a_line_up_to_its_width() {
    let bold = Style { bold: true, ..Style::none() };
    let span = |s: &str, style: Style| Span { text: s.into(), style };
    // The first character of a span may end the line that another span has begun.
    let wide = vec![vec![span("中", Style::none()), span("文", bold)]];
    assert_eq!(joined(&wrap_lines(&wide, 3)), vec!["中", "文"]);
    // A line ends only where the next character has no room.
    let short = vec![vec![span("abc", Style::none()), span("de", bold), span("fgh", Style::none())]];
    assert_eq!(joined(&wrap_lines(&short, 10)), vec!["abcdefgh"]);
    assert_eq!(joined(&wrap_lines(&short, 4)), vec!["abcd", "efgh"]);
    let wrapped = wrap_lines(&short, 4);
    assert_eq!(texts(&wrapped[0]), vec!["abc", "d"]);
    assert_eq!(texts(&wrapped[1]), vec!["e", "fgh"]);
    assert!(!wrapped[0][0].style.bold && wrapped[0][1].style.bold);
    assert!(wrapped[1][0].style.bold && !wrapped[1][1].style.bold);
    assert!(wrap_lines(&short, 0).is_empty());
}

#[test]
fn sessions_are_picked() {
    let mut p = Picker::new(vec![meta("a", Some("西安")), meta("b", None)]);
    assert!(matches!(p.key(KeyCode::Up), PickAction::Stay));
    assert_eq!(p.selected, 2);
    assert!(matches!(p.key(KeyCode::Enter), PickAction::OpenNew));
    p.key(KeyCode::Down);
    assert_eq!(p.selected, 0);
    match p.key(KeyCode::Enter) {
        PickAction::Open(id) => assert_eq!(id, "a"),
        _ => panic!(),
    }
    p.key(KeyCode::Char('d'));
    assert!(p.question().unwrap().contains("确认删除「西安」"));
    assert!(matches!(p.key(KeyCode::Char('n')), PickAction::Stay));
    p.key(KeyCode::Char('d'));
    match p.key(KeyCode::Char('y')) {
        PickAction::Delete(id) => assert_eq!(id, "a"),
        _ => panic!(),
    }
    p.key(KeyCode::Char('r'));
    p.key(KeyCode::Backspace);
    p.key(KeyCode::Char('宁'));
    match p.key(KeyCode::Enter) {
        PickAction::Rename { id, name } => assert_eq!((id.as_str(), name.as_deref()), ("a", Some("西宁"))),
        _ => panic!(),
    }
    p.reload(vec![]);
    assert!(matches!(p.key(KeyCode::Char('q')), PickAction::Leave));
    assert!(matches!(p.key(KeyCode::Esc), PickAction::Leave));
}

#[test]
fn times_are_told() {
    let at = |secs: u64| Timestamp { secs, nanos: 0 };
    let t = Some(at(1000));
    assert_eq!(ago_at(&t, at(1059)), "刚刚");
    assert_eq!(ago_at(&t, at(1060)), "1 分钟前");
    assert_eq!(ago_at(&t, at(1000 + 7200)), "2 小时前");
    assert_eq!(ago_at(&t, at(1000 + 3 * 86400)), "3 天前");
    assert_eq!(ago_at(&t, at(999)), "未知时间");
    assert_eq!(ago_at(&None, at(1)), "未知时间");
    assert!(ago(&t).ends_with(" 天前"));
    // 2026-08-29T14:30:22Z
    assert_eq!(session_id_at(1_788_013_822), "20260829-143022");
    assert_eq!(new_session_id().len(), 15);
    let (name, rest) = session_line(&meta("a", None), at(160));
    assert_eq!(name, " a ");
    assert_eq!(rest, "  2 条消息 · tokens in·out·total=1·2·3 · 1 分钟前");
}
