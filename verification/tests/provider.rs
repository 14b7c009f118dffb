use cheaptrip::llm::{ChatRequest, Message};
use cheaptrip::provider::{
    chat_url, is_glm_model, Provider, ReasoningEffort, RequestAdapter, ResolvedProvider,
};

fn request() -> ChatRequest {
    ChatRequest {
        model: "GLM-5.3-Flash".into(),
        messages: vec![Message {
            role: "user".into(),
            content: Some("hi".into()),
            tool_calls: None,
            tool_call_id: None,
            reasoning_content: None,
        }],
        tools: Vec::new(),
        temperature: Some(0.7f32.to_bits()),
        max_tokens: Some(100),
        stream: None,
        stream_options: None,
        reasoning_effort: None,
    }
}

#[test]
fn glm_adapter_serializes_top_level_reasoning_effort() {
    for (effort, expected) in [
        (ReasoningEffort::Low, "low"),
        (ReasoningEffort::High, "high"),
        (ReasoningEffort::Max, "max"),
    ] {
        let mut req = request();
        RequestAdapter::new(Provider::Glm, "GLM-5.3-Flash", effort).adapt(&mut req);
        assert_eq!(req.reasoning_effort.as_deref(), Some(expected));
    }
}

#[test]
fn generic_adapter_does_not_send_glm_field() {
    let mut req = request();
    RequestAdapter::new(
        Provider::OpenaiCompatible,
        "GLM-5.3-Flash",
        ReasoningEffort::Low,
    )
    .adapt(&mut req);
    assert!(req.reasoning_effort.is_none());
}

#[test]
fn auto_resolves_only_explicit_glm_names() {
    assert!(is_glm_model("GLM-5.3-Flash"));
    assert!(is_glm_model("provider/GLM5"));
    assert!(is_glm_model("glm"));
    assert!(!is_glm_model("myglmish-model"));
    assert!(is_glm_model("myglmish-GLM-5"));
    assert!(!is_glm_model("gpt-4o"));
    assert_eq!(
        RequestAdapter::new(Provider::Auto, "glm-5", ReasoningEffort::Max).resolved_provider(),
        ResolvedProvider::Glm
    );
    assert_eq!(
        RequestAdapter::new(Provider::Auto, "deepseek-chat", ReasoningEffort::Max)
            .resolved_provider(),
        ResolvedProvider::OpenaiCompatible
    );
}

#[test]
fn enums_reject_unknown_values() {
    assert!("bogus".parse::<Provider>().is_err());
    assert!("off".parse::<ReasoningEffort>().is_err());
}

#[test]
fn names_are_read_as_they_are_written() {
    for p in [Provider::Auto, Provider::Glm, Provider::OpenaiCompatible] {
        assert_eq!(p.to_text().parse::<Provider>().unwrap(), p);
    }
    for e in [ReasoningEffort::Low, ReasoningEffort::High, ReasoningEffort::Max] {
        assert_eq!(e.to_text().parse::<ReasoningEffort>().unwrap(), e);
    }
    assert_eq!(Provider::OpenaiCompatible.to_text(), "openai_compatible");
    assert_eq!("GLM".parse::<Provider>().unwrap_err(), "未知 LLM provider：GLM");
    assert_eq!("off".parse::<ReasoningEffort>().unwrap_err(), "未知 reasoning_effort：off");
}

#[test]
fn streams_ask_for_usage() {
    let mut req = request();
    RequestAdapter::new(Provider::Glm, "glm-5", ReasoningEffort::High).prepare_stream(&mut req);
    assert_eq!(req.stream, Some(true));
    assert!(req.stream_options.unwrap().include_usage);
    assert_eq!(req.reasoning_effort.as_deref(), Some("high"));
}

#[test]
fn chat_url_has_one_slash() {
    assert_eq!(chat_url("https://x.test/v1"), "https://x.test/v1/chat/completions");
    assert_eq!(chat_url("https://x.test/v1/"), "https://x.test/v1/chat/completions");
}

#[test]
fn the_generic_provider_gets_no_effort() {
    for model in ["glm-5", "gpt-4o"] {
        let adapter =
            RequestAdapter::new(Provider::OpenaiCompatible, model, ReasoningEffort::High);
        assert_eq!(adapter.resolved_provider(), ResolvedProvider::OpenaiCompatible);
        let chosen = RequestAdapter::new(Provider::Glm, model, ReasoningEffort::High);
        assert_eq!(chosen.resolved_provider(), ResolvedProvider::Glm);
    }
}
