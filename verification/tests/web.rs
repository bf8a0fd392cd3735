use liteclaw::model::{Content, ContentPart, FunctionCall, Message, ModelConfig, Role, ToolCall};
use liteclaw::tools::ToolOutcome;
use liteclaw::web::{
    apply_endpoint, bearer_token, check_credentials, compact_history, delete_session, find_session, format_token,
    inject_agents_md, insert_grounding, message_text, rag_args, rag_question, upsert_session, LoginRequest, Session,
    Sessions, SESSION_TTL_SECS,
};

fn session(id: &str, title: &str, updated: u64) -> Session {
    Session { id: id.into(), title: title.into(), messages: vec![Message::user("hi")], updated }
}

fn text(m: &Message) -> String {
    message_text(m)
}

#[test]
fn only_the_configured_credentials_log_in() {
    let ok = LoginRequest { username: "renault".into(), password: "renault123".into() };
    assert!(check_credentials(&ok));
    let bad = LoginRequest { username: "renault".into(), password: "wrong".into() };
    assert!(!check_credentials(&bad));
}

#[test]
fn bearer_tokens_are_read_from_the_header() {
    assert_eq!(bearer_token(Some("Bearer abc")).as_deref(), Some("abc"));
    assert_eq!(bearer_token(Some("Basic abc")), None);
    assert_eq!(bearer_token(None), None);
    assert_eq!(format_token(255, 1, 42), "ff142");
}

#[test]
fn sessions_expire_after_a_day() {
    let mut s = Sessions::new();
    assert!(!s.valid("t", 0));
    s.insert("t".into(), 100);
    assert!(s.valid("t", 100));
    assert!(s.valid("t", 100 + SESSION_TTL_SECS - 1));
    assert!(!s.valid("t", 100 + SESSION_TTL_SECS));
    assert!(!s.valid("t", 100));
}

#[test]
fn saved_sessions_are_found_replaced_and_deleted() {
    let v = upsert_session(vec![], session("a", "first", 1));
    let v = upsert_session(v, session("b", "second", 2));
    assert_eq!(v.iter().map(|s| s.id.as_str()).collect::<Vec<_>>(), vec!["b", "a"]);
    let v = upsert_session(v, session("a", "renamed", 3));
    assert_eq!(v.len(), 2);
    assert_eq!(find_session(&v, "a").unwrap().title, "renamed");
    assert_eq!(v[1].id, "a");
    let v = delete_session(v, "a").unwrap();
    assert!(find_session(&v, "a").is_none());
    assert!(delete_session(v, "zzz").is_none());
}

#[test]
fn history_keeps_fifty_sessions() {
    let mut v = Vec::new();
    for i in 0..55 {
        v = upsert_session(v, session(&format!("s{i}"), "t", i));
    }
    assert_eq!(v.len(), 50);
    assert_eq!(v[0].id, "s54");
    assert!(find_session(&v, "s4").is_none());
    assert!(find_session(&v, "s5").is_some());
}

#[test]
fn payload_is_compacted_for_retrieval() {
    let long = "长".repeat(450);
    let mut msgs = vec![Message::system("sys"), Message::system("second system")];
    for i in 0..10 {
        msgs.push(Message::user(&format!("q{i}")));
    }
    msgs.push(Message {
        role: Role::Assistant,
        content: None,
        tool_calls: Some(vec![ToolCall {
            id: "c".into(),
            call_type: "function".into(),
            function: FunctionCall { name: "read".into(), arguments: "{}".into() },
        }]),
        tool_call_id: None,
    });
    msgs.push(Message::tool_result("c", "result"));
    msgs.push(Message::assistant_text(&long));
    let out = compact_history(msgs);
    assert_eq!(out.len(), 9);
    assert_eq!(text(&out[0]), "sys");
    assert_eq!(text(&out[1]), "q3");
    assert_eq!(text(&out[8]), format!("{}…", "长".repeat(400)));
    assert!(out.iter().all(|m| m.role != Role::Tool));
}

#[test]
fn the_newest_question_is_grounded() {
    let mut msgs = vec![Message::system("s"), Message::user("old"), Message::assistant_text("a"), Message::user("新问题")];
    assert_eq!(rag_question(&msgs).as_deref(), Some("新问题"));
    let args = rag_args("新问题");
    assert_eq!(args.get_str("id").as_deref(), Some("manual-rag"));
    assert_eq!(args.get_str("args").as_deref(), Some("新问题"));
    insert_grounding(&mut msgs, &ToolOutcome::ok("passage"));
    assert_eq!(msgs.len(), 5);
    assert_eq!(text(&msgs[4]), "新问题");
    assert!(text(&msgs[3]).contains("passage"));
    assert_eq!(msgs[3].role, Role::User);
    let before = msgs.len();
    insert_grounding(&mut msgs, &ToolOutcome::failed("x"));
    insert_grounding(&mut msgs, &ToolOutcome::ok("   "));
    assert_eq!(msgs.len(), before);
    assert_eq!(rag_question(&vec![Message::user("  ")]), None);
    assert_eq!(rag_question(&vec![Message::user("q"), Message::user(" ")]), None);
    assert_eq!(rag_question(&vec![Message::system("s")]), None);
}

#[test]
fn agents_md_extends_the_first_system_message() {
    let msgs = vec![Message::user("u"), Message::system("base")];
    let out = inject_agents_md(msgs.clone(), Some("rules".into()));
    assert_eq!(out.len(), 2);
    assert_eq!(text(&out[1]), "base\n\n--- 项目 AGENTS.md 约定 ---\nrules\n--- AGENTS.md 结束 ---");
    let none = inject_agents_md(msgs, None);
    assert_eq!(text(&none[1]), "base");
    let m = Message {
        role: Role::User,
        content: Some(Content::Parts(vec![
            ContentPart { kind: Some("image_url".into()), text: None, image_url: Some("u".into()), raw: String::new() },
            ContentPart { kind: Some("text".into()), text: Some("first".into()), image_url: None, raw: String::new() },
            ContentPart { kind: Some("text".into()), text: Some("second".into()), image_url: None, raw: String::new() },
        ])),
        tool_calls: None,
        tool_call_id: None,
    };
    assert_eq!(text(&m), "first");
}

#[test]
fn gateway_endpoints_override_the_browser_config() {
    let mut cfg = ModelConfig { base_url: "http://local".into(), api_key: "k0".into(), ..Default::default() };
    apply_endpoint(&mut cfg, Some("https://gw/v1".into()), None);
    assert_eq!(cfg.base_url, "https://gw/v1");
    assert_eq!(cfg.api_key, "k0");
    apply_endpoint(&mut cfg, None, Some("k1".into()));
    assert_eq!(cfg.api_key, "k1");
}
