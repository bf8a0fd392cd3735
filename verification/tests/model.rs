use liteclaw::model::{BodyField, ModelConfig};

#[test]
fn ollama_url_derived_from_v1_base() {
    let cfg = ModelConfig {
        base_url: "http://172.21.0.1:11434/v1".into(),
        ..Default::default()
    };
    assert_eq!(cfg.ollama_chat_url(), "http://172.21.0.1:11434/api/chat");
}

#[test]
fn chat_url_trims_trailing_slashes() {
    let cfg = ModelConfig {
        base_url: "https://api.openai.com/v1//".into(),
        ..Default::default()
    };
    assert_eq!(cfg.chat_url(), "https://api.openai.com/v1/chat/completions");
    assert_eq!(cfg.ollama_chat_url(), "https://api.openai.com/api/chat");
    let d = ModelConfig::default();
    assert_eq!(d.base_url, "http://localhost:11434/v1");
    assert_eq!(d.model, "qwen2.5:7b");
    assert_eq!(d.chat_url(), "http://localhost:11434/v1/chat/completions");
}

use liteclaw::model::{
    images_of, text_of, to_native_messages, Content, ContentPart, FunctionCall, Message, Role, ToolCall,
};

#[test]
fn native_messages_conversion() {
    let messages = vec![
        Message::system("你是车辆助手"),
        Message {
            role: Role::User,
            content: Some(Content::Parts(vec![
                ContentPart { kind: Some("text".into()), text: Some("看图".into()), image_url: None, raw: String::new() },
                ContentPart {
                    kind: Some("image_url".into()),
                    text: None,
                    image_url: Some("data:image/png;base64,QUJD".into()),
                    raw: String::new(),
                },
            ])),
            tool_calls: None,
            tool_call_id: None,
        },
        Message {
            role: Role::Assistant,
            content: None,
            tool_calls: Some(vec![ToolCall {
                id: "call_0".into(),
                call_type: "function".into(),
                function: FunctionCall { name: "skill_run".into(), arguments: r#"{"id":"manual-rag"}"#.into() },
            }]),
            tool_call_id: None,
        },
        Message::tool_result("call_0", "[]"),
    ];
    let native = to_native_messages(messages);
    assert_eq!(native[0].role, Role::System);
    assert!(matches!(native[1].content, Some(Content::Text(ref t)) if t == "看图"));
    assert_eq!(native[1].images, vec!["QUJD".to_string()]);
    let calls = native[2].tool_calls.as_ref().unwrap();
    let args: serde_json::Value = serde_json::from_str(&calls[0].arguments).unwrap();
    assert_eq!(args["id"], "manual-rag");
    assert_eq!(native[3].role, Role::Tool);
    assert!(matches!(native[3].content, Some(Content::Text(ref t)) if t == "[]"));
}

#[test]
fn text_and_images_of_multimodal_content() {
    let c = Some(Content::Parts(vec![
        ContentPart { kind: Some("text".into()), text: Some("a".into()), image_url: None, raw: String::new() },
        ContentPart { kind: Some("image_url".into()), text: None, image_url: Some("https://x/y.png".into()), raw: String::new() },
        ContentPart { kind: Some("text".into()), text: Some("b".into()), image_url: None, raw: String::new() },
    ]));
    assert_eq!(text_of(&c), "ab");
    assert!(images_of(&c).is_empty());
    assert_eq!(text_of(&None), "");
    assert_eq!(text_of(&Some(Content::Other("42".into()))), "");
}

#[test]
fn openai_body_turns_reasoning_off_and_layers_extras_last() {
    let cfg = ModelConfig { no_think: true, ..Default::default() };
    assert_eq!(
        cfg.openai_body_fields(true, 2),
        vec![
            BodyField::Model,
            BodyField::Messages,
            BodyField::Stream,
            BodyField::StreamOptions,
            BodyField::Tools,
            BodyField::NoReasoning,
            BodyField::Extra(0),
            BodyField::Extra(1),
        ]
    );
    let plain = ModelConfig::default();
    assert_eq!(
        plain.openai_body_fields(false, 0),
        vec![BodyField::Model, BodyField::Messages, BodyField::Stream, BodyField::StreamOptions]
    );
}

#[test]
fn native_body_sends_think_off_and_context_window() {
    let cfg = ModelConfig { no_think: true, num_ctx: Some(8192), ..Default::default() };
    assert_eq!(
        cfg.native_body_fields(true),
        vec![
            BodyField::Model,
            BodyField::Messages,
            BodyField::Stream,
            BodyField::NoThink,
            BodyField::NumCtx(8192),
            BodyField::Tools,
        ]
    );
    assert_eq!(
        ModelConfig::default().native_body_fields(false),
        vec![BodyField::Model, BodyField::Messages, BodyField::Stream]
    );
}
