use cheaptrip::config::{if_nonempty, AuthConfig, WebConfig, XhsConfig};
use cheaptrip::llm::{StreamChoice, StreamChunk, StreamEvent, ToolCallDelta, Usage};
use cheaptrip::pace::{pause_nanos, Jitter, RateLimiter};
use cheaptrip::provider::{Provider, ReasoningEffort};
use cheaptrip::session::Session;
use cheaptrip::stream::StreamDecoder;
use cheaptrip::text;
use cheaptrip::toggles::Toggles;
use cheaptrip::turn::{Next, Reply, Stop, StreamInput, CANCELLED, MAX_STEPS, RETRIES};

fn event(e: StreamEvent) -> StreamInput {
    StreamInput::Event(e)
}

fn delta(index: u32, id: Option<&str>, name: Option<&str>, args: Option<&str>) -> StreamInput {
    event(StreamEvent::ToolCallDelta {
        index,
        id: id.map(|s| s.into()),
        name: name.map(|s| s.into()),
        args_chunk: args.map(|s| s.into()),
    })
}

#[test]
fn a_stream_is_decoded_in_any_chunks() {
    let body = "data: {\"a\":\"中文\"}\n\n: 注释\n\ndata: 二\n\ndata: [DONE]\n\ndata: 不要\n\n".as_bytes().to_vec();
    let whole = StreamDecoder::new().feed(&body);
    assert_eq!(whole.0, vec!["{\"a\":\"中文\"}".to_string(), "二".to_string()]);
    assert!(whole.1);
    for step in [1, 2, 3, 5, 7] {
        let mut d = StreamDecoder::new();
        let mut out = Vec::new();
        let mut done = false;
        for chunk in body.chunks(step) {
            if done {
                break;
            }
            let (more, end) = d.feed(&chunk.to_vec());
            out.extend(more);
            done = end;
        }
        assert_eq!(out, whole.0, "chunks of {step}");
        assert!(done);
    }
}

#[test]
fn chunks_become_events() {
    let chunk = StreamChunk {
        choices: vec![StreamChoice {
            content: Some("好".into()),
            reasoning_content: Some("想".into()),
            tool_calls: Some(vec![ToolCallDelta {
                index: 0,
                id: Some("c".into()),
                name: Some("t".into()),
                arguments: Some("{".into()),
            }]),
            finish_reason: Some("stop".into()),
        }],
        usage: Some(Usage { prompt_tokens: 1, completion_tokens: 1, total_tokens: 2 }),
    };
    let events = chunk.into_events();
    assert!(events.iter().any(|e| matches!(e, StreamEvent::Content(s) if s == "好")));
    assert!(events.iter().any(|e| matches!(e, StreamEvent::Reasoning(s) if s == "想")));
    assert!(events.iter().any(|e| matches!(e, StreamEvent::ToolCallDelta { index: 0, .. })));
    assert!(events.iter().any(|e| matches!(e, StreamEvent::Usage(u) if u.total_tokens == 2)));
    assert!(events.iter().any(|e| matches!(e, StreamEvent::Finish { .. })));
}

#[test]
fn a_reply_comes_in_whole() {
    let mut r = Reply::new();
    assert!(r.take(&event(StreamEvent::Content("你".into()))).is_none());
    assert!(r.take(&event(StreamEvent::Content("好".into()))).is_none());
    assert!(r.take(&delta(0, Some("c1"), Some("geocode"), Some("{\"a"))).is_none());
    assert!(r.take(&delta(0, None, None, Some("\":1}"))).is_none());
    assert!(r
        .take(&event(StreamEvent::Usage(Usage {
            prompt_tokens: 3,
            completion_tokens: 4,
            total_tokens: 7
        })))
        .is_none());
    assert!(matches!(r.take(&event(StreamEvent::Done)), Some(Stop::Completed)));
    assert!(matches!(r.settle(Stop::Completed), Next::Finish));
    let mut s = Session::new("s".into());
    let calls = r.finish(&mut s);
    assert_eq!(calls.len(), 1);
    assert_eq!(calls[0].function.name, "geocode");
    assert_eq!(calls[0].function.arguments.as_deref(), Some("{\"a\":1}"));
    assert_eq!(s.usage.total_tokens, 7);
    assert_eq!(s.messages.last().unwrap().content.as_deref(), Some("你好"));
}

#[test]
fn a_stream_that_fails_is_tried_again() {
    let mut r = Reply::new();
    for i in 0..RETRIES {
        let stop = r.take(&StreamInput::OpenFailed("断".into())).unwrap();
        match r.settle(stop) {
            Next::Resend { wait_ms, notice } => {
                assert_eq!(wait_ms, 1000 * (i as u64 + 1));
                assert!(notice.is_none());
            }
            _ => panic!(),
        }
    }
    let stop = r.take(&StreamInput::OpenFailed("断".into())).unwrap();
    match r.settle(stop) {
        Next::Fail(e) => assert_eq!(e, "断"),
        _ => panic!(),
    }
    assert_eq!((MAX_STEPS, CANCELLED), (20, "已取消"));
}

#[test]
fn a_reply_that_is_cut_goes_on() {
    let mut r = Reply::new();
    r.take(&event(StreamEvent::Content("一半".into())));
    let stop = r
        .take(&event(StreamEvent::Finish { reason: Some("length".into()) }))
        .unwrap();
    assert!(matches!(stop, Stop::Continue));
    assert!(matches!(r.settle(stop), Next::Resend { wait_ms: 0, notice: None }));
    assert_eq!(r.extra.len(), 2);
    assert_eq!(r.extra[0].content.as_deref(), Some("一半"));
    assert_eq!(r.content, "一半");
}

#[test]
fn a_call_that_is_cut_is_made_again() {
    let mut r = Reply::new();
    r.take(&event(StreamEvent::Content("先说".into())));
    r.take(&delta(0, Some("c"), Some("t"), Some("{")));
    let stop = r.take(&StreamInput::Ended).unwrap();
    assert!(matches!(stop, Stop::ToolRetry));
    match r.settle(stop) {
        Next::Resend { notice, .. } => assert!(notice.unwrap().contains("第 1/3 次")),
        _ => panic!(),
    }
    assert!(r.accs.is_empty() && r.content.is_empty());
}

#[test]
fn calls_are_spaced() {
    let rl = RateLimiter::new(50);
    assert_eq!(rl.wait_nanos(None), 0);
    assert_eq!(rl.wait_nanos(Some(0)), 50_000_000);
    assert_eq!(rl.wait_nanos(Some(20_000_000)), 30_000_000);
    assert_eq!(rl.wait_nanos(Some(50_000_000)), 0);
    assert_eq!(pause_nanos(Some(1), 8000), 7_999_999_999);
    let mut j = Jitter::new(0);
    for _ in 0..100 {
        let n = j.rand_range(3, 9);
        assert!((3..=9).contains(&n));
        let ms = j.next_interval(8000, 7000);
        assert!((8000..=15000).contains(&ms));
    }
    assert_eq!(Jitter::new(0).next_rand(), {
        let x = 1u64 ^ (1u64 << 13);
        let x = x ^ (x >> 7);
        x ^ (x << 17)
    });
}

/// Provider and effort as a configuration names them, or by default.
fn named_in(config: &str) -> (Provider, ReasoningEffort) {
    let table: toml::Table = toml::from_str(config).expect("TOML");
    let named = |key: &str| table["llm"].get(key).map(|v| v.as_str().expect("text"));
    (
        named("provider").map_or(Provider::default(), |s| s.parse().expect("provider")),
        named("reasoning_effort").map_or(ReasoningEffort::default(), |s| s.parse().expect("effort")),
    )
}

#[test]
fn old_config_defaults_provider_and_reasoning_effort() {
    let (provider, effort) = named_in(
        r#"
        [llm]
        base_url = "https://example.test"
        model = "GLM-5.3-Flash"
        api_key_env = "API_KEY"
        temperature = 0.7
        max_tokens = 100

        [cost]
        input_per_1m = 0.0
        output_per_1m = 0.0

        [session]
        "#,
    );
    assert_eq!(provider, Provider::Auto);
    assert_eq!(effort, ReasoningEffort::Max);
}

#[test]
fn explicit_provider_and_reasoning_effort_deserialize() {
    let (provider, effort) = named_in(
        r#"
        [llm]
        base_url = "https://example.test"
        model = "gpt-4o"
        api_key_env = "API_KEY"
        temperature = 0.7
        max_tokens = 100
        provider = "openai_compatible"
        reasoning_effort = "low"

        [cost]
        input_per_1m = 0.0
        output_per_1m = 0.0

        [session]
        "#,
    );
    assert_eq!(provider, Provider::OpenaiCompatible);
    assert_eq!(effort, ReasoningEffort::Low);
}

#[test]
fn settings_are_safe_by_default() {
    let auth = AuthConfig::default();
    assert!(!auth.enabled && !auth.secure_cookie);
    assert_eq!(auth.session_ttl_hours, 168);
    assert_eq!((auth.max_login_failures, auth.lockout_secs), (5, 300));
    let web = WebConfig::default();
    assert_eq!(web.cors_origins, ["http://localhost:5173", "http://127.0.0.1:5173"]);
    assert_eq!((web.bind.as_str(), web.max_concurrent), ("127.0.0.1:8080", 2));
    let xhs = XhsConfig::default();
    assert!(!xhs.enabled);
    assert_eq!(xhs.url, "http://localhost:18060/mcp");
    assert_eq!((xhs.min_interval_ms, xhs.jitter_ms), (8000, 7000));
    assert_eq!(xhs.token_variable(), None);
    assert_eq!(if_nonempty(&Some("".into())), None);
    assert_eq!(if_nonempty(&Some("x".into())).as_deref(), Some("x"));
}

#[test]
fn switches_are_set_one_by_one() {
    let mut t = Toggles::default();
    assert!(t.hotel_crawler && t.xhs);
    t.set("xhs", false).unwrap();
    assert!(t.hotel_crawler && !t.xhs);
    t.set("hotel", false).unwrap();
    assert!(!t.hotel_crawler);
    assert_eq!(t.set("web", true).unwrap_err(), "未知开关: web");
}

#[test]
fn white_space_is_what_it_is_elsewhere() {
    for u in 0..=0x10FFFFu32 {
        if let Some(c) = char::from_u32(u) {
            assert_eq!(text::is_whitespace(c), c.is_whitespace(), "{u:x}");
        }
    }
}

#[test]
fn texts_are_taken_apart_and_put_together() {
    for s in ["", " a b\t\n c ", "a\r\nb\n\nc", "\n", "无", "a,b,,c", "+12", "012", "-1"] {
        assert_eq!(text::trim(s), s.trim());
        assert_eq!(text::lines(s), s.lines().collect::<Vec<_>>());
        assert_eq!(text::split(s, ','), s.split(',').collect::<Vec<_>>());
        assert_eq!(text::split_whitespace(s), s.split_whitespace().collect::<Vec<_>>());
        assert_eq!(text::parse_unsigned(s, u64::MAX), s.parse::<u64>().ok());
        assert_eq!(text::fits_bytes(s, 3), s.len() <= 3);
        for t in ["", "a", "a b", "无", "\n"] {
            assert_eq!(text::has_text(s, t), s.contains(t));
            assert_eq!(text::starts_with(s, t), s.starts_with(t));
            assert_eq!(text::ends_with(s, t), s.ends_with(t));
            assert_eq!(text::stands_not_after(s, t), s <= t);
        }
    }
    assert_eq!(text::number(0), "0");
    assert_eq!(text::number(u64::MAX), format!("{}", u64::MAX));
    assert_eq!(text::padded_number(7, 3), "007");
    assert_eq!(text::shorten_to_bytes("中文", 4), "中");
    assert_eq!(text::join(&vec!["a".into(), "b".into()], "、"), "a、b");
}
