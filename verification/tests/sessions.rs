use cheaptrip::clock::Timestamp;
use cheaptrip::llm::{Message, Usage};
use cheaptrip::session::{
    notes_file_name, sanitize, session_file_name, strip_trailing_commas, QuickMode, Session,
    StoredSession, WorkflowMode,
};

fn at(secs: u64) -> Timestamp {
    Timestamp { secs, nanos: 0 }
}

fn stored(id: &str, secs: Option<u64>) -> StoredSession {
    let mut session = Session::opened_at(id.into(), WorkflowMode::Quick, at(0));
    session.updated_at = secs.map(at);
    StoredSession {
        stem: id.into(),
        session,
    }
}

#[test]
fn new_session_greeting_explains_both_modes_and_boundaries() {
    let session = Session::new("test-greeting-modes".into());
    let greeting = session.messages[0]
        .content
        .as_deref()
        .expect("新会话应有固定欢迎语");
    assert!(greeting.contains("拾光者"));
    assert!(greeting.contains("快捷模式") && greeting.contains("完整攻略"));
    for capability in ["种草", "排程", "地图", "小红书", "携程候选酒店核验"] {
        assert!(greeting.contains(capability), "欢迎语应包含 {capability}");
    }
    for stage in ["需求", "路线", "景点", "住宿", "交通", "最终攻略"] {
        assert!(greeting.contains(stage), "完整攻略说明应包含 {stage}");
    }
    assert!(greeting.contains("知识库目前尚未启用"));
    assert!(greeting.ends_with("？"));
}

#[test]
fn new_session_can_persist_selected_workflow_mode() {
    let quick = Session::new_with_workflow_mode("test-selected-quick".into(), WorkflowMode::Quick);
    let full = Session::new_with_workflow_mode("test-selected-full".into(), WorkflowMode::Full);
    assert_eq!(quick.workflow_mode, WorkflowMode::Quick);
    assert_eq!(full.workflow_mode, WorkflowMode::Full);
    assert_eq!(quick.quick_mode, QuickMode::Auto);
    assert_eq!(full.quick_mode, QuickMode::Auto);
}

#[test]
fn owner_defaults_and_old_json_compatibility() {
    let session = Session::new("test-owner-migration".into());
    assert_eq!(session.owner_user_id, None);
    assert_eq!(session.workflow_mode, WorkflowMode::Quick);
    assert_eq!(session.quick_mode, QuickMode::Auto);
    // What an old file leaves out counts as this.
    assert_eq!(WorkflowMode::default(), WorkflowMode::Full);
    assert_eq!(QuickMode::default(), QuickMode::Auto);
    // A comma before the closing bracket, as old files have it, is no obstacle.
    let json = "{\n  \"id\": \"test-owner-migration\"\n}";
    let trailing = json.replace("\n}", ",\n}");
    let cleaned = strip_trailing_commas(&trailing);
    let v: serde_json::Value = serde_json::from_str(&cleaned).unwrap();
    assert_eq!(v["id"], "test-owner-migration");
}

#[test]
fn transfer_owner_keeps_session_data() {
    let mut session = Session::new("test-owner-transfer".into());
    session.owner_user_id = Some(11);
    session.transfer_owner(22);
    assert_eq!(session.owner_user_id, Some(22));
    assert_eq!(session.messages.len(), 1);
}

#[test]
fn commas_in_texts_stay() {
    assert_eq!(strip_trailing_commas(r#"{"a":"x,}",}"#), r#"{"a":"x,}"}"#);
    assert_eq!(strip_trailing_commas("[1, 2 , \n]"), "[1, 2  \n]");
    assert_eq!(strip_trailing_commas(r#"["a\",]",1]"#), r#"["a\",]",1]"#);
}

#[test]
fn an_owner_is_not_overwritten() {
    let mut owned = Session::new("a".into());
    owned.owner_user_id = Some(7);
    assert!(!owned.claim(9));
    assert_eq!(owned.owner_user_id, Some(7));
    let mut sessions = vec![owned, Session::new("b".into()), Session::new("c".into())];
    assert_eq!(Session::assign_unowned_to(&mut sessions, 9), 2);
    let owners: Vec<_> = sessions.iter().map(|s| s.owner_user_id).collect();
    assert_eq!(owners, vec![Some(7), Some(9), Some(9)]);
}

#[test]
fn the_last_messages_stay() {
    let mut s = Session::new("a".into());
    for i in 0..5 {
        s.messages.push(Message::plain("user", format!("{i}")));
    }
    s.trim_messages(Some(2));
    let kept: Vec<_> = s.messages.iter().map(|m| m.content.clone().unwrap()).collect();
    assert_eq!(kept, vec!["3", "4"]);
    s.trim_messages(None);
    assert_eq!(s.messages.len(), 2);
    let mut all = vec![s];
    Session::trim_all(&mut all, Some(1));
    assert_eq!(all[0].messages.len(), 1);
}

#[test]
fn sessions_are_listed_newest_first_and_pruned_from_the_end() {
    let list = Session::list(&vec![
        stored("old", Some(10)),
        stored("cli", Some(99)),
        stored("new", Some(30)),
        stored("never", None),
        stored("mid", Some(20)),
    ]);
    let ids: Vec<_> = list.iter().map(|m| m.id.as_str()).collect();
    assert_eq!(ids, vec!["new", "mid", "old", "never"]);
    assert_eq!(Session::prune(&list, Some(2)), vec!["old", "never"]);
    assert!(Session::prune(&list, None).is_empty());
}

#[test]
fn file_names_are_safe() {
    assert_eq!(sanitize("../a b/中-_9é"), "___a_b_中-_9é");
    assert_eq!(sanitize("…·"), "__");
    assert_eq!(session_file_name("a/b"), "a_b.json");
    assert_eq!(notes_file_name("a/b"), "a_b.md");
    let t = Session::delete("a/b");
    assert_eq!(t.file, "sessions/a_b.json");
    assert_eq!(t.notes, "sessions/a_b.md");
    assert_eq!(t.maps, "maps/a_b");
    assert_eq!(t.hotels, "hotels/a_b");
    assert!(Session::is_stored("a/b", &vec!["a_b.json".into()]));
    assert!(!Session::is_stored("a/c", &vec!["a_b.json".into()]));
}

#[test]
fn renaming_changes_the_name_alone() {
    let mut s = Session::opened_at("id".into(), WorkflowMode::Full, at(5));
    s.usage = Usage {
        prompt_tokens: 1,
        completion_tokens: 2,
        total_tokens: 3,
    };
    s.rename("西安".into());
    assert_eq!(s.name.as_deref(), Some("西安"));
    assert_eq!((s.id.as_str(), s.usage.total_tokens, s.messages.len()), ("id", 3, 1));
}
