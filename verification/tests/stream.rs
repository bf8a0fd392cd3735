use liteclaw::model::ToolCall;
use liteclaw::stream::{
    frame_data, join, lines, Chunk, ChunkDelta, DeltaToolCall, FrameData, FrameStep, NativeCall, OllamaChunk,
    OllamaDecoder, OllamaMessage, OllamaStep, SseDecoder, SseStep, StreamEvent, Usage,
};
use serde_json::Value;

fn opt_str(v: &Value) -> Option<String> {
    v.as_str().map(String::from)
}

/// A chunk as the application decodes it; `None` when it is not one.
fn chunk_of(json: &str) -> Option<Chunk> {
    let v: Value = serde_json::from_str(json).ok()?;
    let choices = v.get("choices")?.as_array()?;
    let usage = v.get("usage").and_then(|u| {
        Some(Usage { prompt_tokens: u["prompt_tokens"].as_u64()?, completion_tokens: u["completion_tokens"].as_u64()? })
    });
    let delta = choices.first().map(|c| {
        let d = &c["delta"];
        ChunkDelta {
            content: opt_str(&d["content"]),
            reasoning_content: opt_str(&d["reasoning_content"]),
            reasoning: opt_str(&d["reasoning"]),
            tool_calls: d["tool_calls"]
                .as_array()
                .map(|a| {
                    a.iter()
                        .map(|t| DeltaToolCall {
                            index: t["index"].as_u64().unwrap_or(0) as usize,
                            id: opt_str(&t["id"]),
                            name: opt_str(&t["function"]["name"]),
                            arguments: opt_str(&t["function"]["arguments"]),
                        })
                        .collect()
                })
                .unwrap_or_default(),
        }
    });
    Some(Chunk { delta, usage })
}

/// Runs an SSE decoder over the given pieces of upstream bytes.
fn run_sse(pieces: &[&str]) -> Vec<StreamEvent> {
    let mut d = SseDecoder::new();
    let mut out = Vec::new();
    let mut feed = pieces.iter();
    loop {
        match d.poll() {
            SseStep::Event(e) => out.push(e),
            SseStep::Finished => return out,
            SseStep::Frame(frame) => {
                if let FrameStep::Decode(json) = d.handle_frame(&frame) {
                    if let Some(c) = chunk_of(&json) {
                        d.apply_chunk(c);
                    }
                }
            }
            SseStep::NeedBytes => match feed.next() {
                Some(p) => d.push_bytes(p.as_bytes()),
                None => d.end_of_stream(),
            },
        }
    }
}

fn ollama_chunk_of(line: &str) -> Option<OllamaChunk> {
    let v: Value = serde_json::from_str(line).ok()?;
    let m = &v["message"];
    let message = m.as_object().map(|_| OllamaMessage {
        content: opt_str(&m["content"]),
        thinking: opt_str(&m["thinking"]),
        tool_calls: m["tool_calls"].as_array().map(|a| {
            a.iter()
                .map(|t| NativeCall {
                    name: opt_str(&t["function"]["name"]).unwrap_or_default(),
                    arguments: t["function"]["arguments"].to_string(),
                })
                .collect()
        }),
    });
    Some(OllamaChunk {
        message,
        done: v["done"].as_bool().unwrap_or(false),
        prompt_eval_count: v["prompt_eval_count"].as_u64(),
        eval_count: v["eval_count"].as_u64(),
    })
}

fn run_ollama(pieces: &[String]) -> Vec<StreamEvent> {
    let mut d = OllamaDecoder::new();
    let mut out = Vec::new();
    let mut feed = pieces.iter();
    loop {
        match d.poll() {
            OllamaStep::Event(e) => out.push(e),
            OllamaStep::Finished => return out,
            OllamaStep::Line(line) => {
                d.feed_line(ollama_chunk_of(&line));
            }
            OllamaStep::NeedBytes => match feed.next() {
                Some(p) => d.push_bytes(p.as_bytes()),
                None => d.end_of_stream(),
            },
        }
    }
}

fn text_of(events: &[StreamEvent]) -> String {
    events
        .iter()
        .filter_map(|e| match e {
            StreamEvent::Delta(d) => Some(d.as_str()),
            _ => None,
        })
        .collect()
}

fn done_of(events: &[StreamEvent]) -> Option<(&Vec<ToolCall>, Option<Usage>)> {
    events.iter().find_map(|e| match e {
        StreamEvent::Done { tool_calls, usage } => Some((tool_calls, *usage)),
        _ => None,
    })
}

#[test]
fn decodes_text_deltas() {
    let events = run_sse(&[
        "data: {\"choices\":[{\"delta\":{\"content\":\"Hello\"}}]}\n\n",
        "data: {\"choices\":[{\"delta\":{\"content\":\" world\"}}]}\n\n",
        "data: [DONE]\n\n",
    ]);
    assert_eq!(text_of(&events), "Hello world");
    assert!(done_of(&events).is_some());
}

#[test]
fn accumulates_fragmented_tool_calls() {
    let events = run_sse(&[
        "data: {\"choices\":[{\"delta\":{\"tool_calls\":[{\"index\":0,\"id\":\"call_1\",\"function\":{\"name\":\"read\",\"arguments\":\"{\\\"pa\"}}]}}]}\n\n",
        "data: {\"choices\":[{\"delta\":{\"tool_calls\":[{\"index\":0,\"function\":{\"arguments\":\"th\\\":\\\"Cargo.toml\\\"}\"}}]}}]}\n\n",
        "data: [DONE]\n\n",
    ]);
    let (calls, _) = done_of(&events).expect("a Done event");
    assert_eq!(calls.len(), 1);
    assert_eq!(calls[0].id, "call_1");
    assert_eq!(calls[0].call_type, "function");
    assert_eq!(calls[0].function.name, "read");
    assert_eq!(calls[0].function.arguments, r#"{"path":"Cargo.toml"}"#);
}

#[test]
fn captures_usage_from_final_chunk() {
    let events = run_sse(&[
        "data: {\"choices\":[{\"delta\":{\"content\":\"ok\"}}]}\n\n",
        "data: {\"choices\":[],\"usage\":{\"prompt_tokens\":14,\"completion_tokens\":19}}\n\n",
        "data: [DONE]\n\n",
    ]);
    let (_, usage) = done_of(&events).expect("a Done event");
    assert_eq!(usage, Some(Usage { prompt_tokens: 14, completion_tokens: 19 }));
}

#[test]
fn ignores_keepalive_comments() {
    let events = run_sse(&[
        ": keepalive\n\n",
        "data: {\"choices\":[{\"delta\":{\"content\":\"ok\"}}]}\n\n",
        "data: [DONE]\n\n",
    ]);
    assert_eq!(text_of(&events), "ok");
}

#[test]
fn wraps_reasoning_content_in_think_tags() {
    let events = run_sse(&[
        "data: {\"choices\":[{\"delta\":{\"reasoning_content\":\"想一下\"}}]}\n\n",
        "data: {\"choices\":[{\"delta\":{\"reasoning_content\":\"，答案是\"}}]}\n\n",
        "data: {\"choices\":[{\"delta\":{\"content\":\"2\"}}]}\n\n",
        "data: [DONE]\n\n",
    ]);
    assert_eq!(text_of(&events), "<think>想一下，答案是</think>2");
    assert!(done_of(&events).is_some());
}

#[test]
fn closes_unclosed_think_on_stream_end() {
    let events = run_sse(&["data: {\"choices\":[{\"delta\":{\"reasoning_content\":\"思考中\"}}]}\n\n"]);
    assert_eq!(text_of(&events), "<think>思考中</think>");
    assert!(done_of(&events).is_some());
}

#[test]
fn plain_content_produces_no_think_tags() {
    let events = run_sse(&["data: {\"choices\":[{\"delta\":{\"content\":\"你好\"}}]}\n\n", "data: [DONE]\n\n"]);
    assert_eq!(text_of(&events), "你好");
    assert!(done_of(&events).is_some());
}

#[test]
fn frames_split_across_reads_are_joined() {
    let events = run_sse(&["data: {\"choices\":[{\"delta\":{\"con", "tent\":\"ab\"}}]}\n", "\ndata: [DONE]\n\n"]);
    assert_eq!(text_of(&events), "ab");
    assert_eq!(events.len(), 2);
}

#[test]
fn frame_data_joins_data_lines() {
    assert!(matches!(frame_data(": keepalive"), FrameData::Empty));
    assert!(matches!(frame_data("data: [DONE]"), FrameData::Done));
    assert!(matches!(frame_data("event: x\ndata: a\ndata: b"), FrameData::Json(ref s) if s == "a\nb"));
    assert_eq!(lines("a\nb\r\n"), vec!["a".to_string(), "b".to_string()]);
    assert_eq!(join(&vec!["x".into(), "y".into()], ", "), "x, y");
}

#[test]
fn ollama_decoder_thinking_and_usage() {
    let events = run_ollama(&[
        r#"{"message":{"thinking":"想一想"},"done":false}"#.to_string() + "\n",
        r#"{"message":{"content":"答案是"},"done":false}"#.to_string() + "\n",
        r#"{"message":{"content":"2"},"done":false}"#.to_string() + "\n",
        r#"{"message":{},"done":true,"prompt_eval_count":11,"eval_count":22}"#.to_string() + "\n",
    ]);
    assert_eq!(text_of(&events), "<think>想一想</think>答案是2");
    let (_, usage) = done_of(&events).expect("a Done event");
    assert_eq!(usage, Some(Usage { prompt_tokens: 11, completion_tokens: 22 }));
}

#[test]
fn ollama_decoder_tool_call_on_done_line() {
    let events = run_ollama(&[
        r#"{"message":{"thinking":"想一想"},"done":false}"#.to_string() + "\n",
        r#"{"message":{"content":"调用工具"},"done":false}"#.to_string() + "\n",
        r#"{"message":{"tool_calls":[{"function":{"name":"skill_list","arguments":{}}}]},"done":true,"prompt_eval_count":5,"eval_count":6}"#.to_string() + "\n",
    ]);
    assert_eq!(text_of(&events), "<think>想一想</think>调用工具");
    let (calls, usage) = done_of(&events).expect("a Done event");
    assert_eq!(usage, Some(Usage { prompt_tokens: 5, completion_tokens: 6 }));
    assert_eq!(calls.len(), 1);
    assert_eq!(calls[0].id, "call_0");
    assert_eq!(calls[0].function.name, "skill_list");
    assert_eq!(calls[0].function.arguments, "{}");
}

#[test]
fn ollama_stream_end_without_done_line_still_finishes() {
    let events = run_ollama(&[r#"{"message":{"thinking":"半截"},"done":false}"#.to_string() + "\n", "{\"par".to_string()]);
    assert_eq!(text_of(&events), "<think>半截</think>");
    let (calls, usage) = done_of(&events).expect("a Done event");
    assert!(calls.is_empty());
    assert_eq!(usage, None);
}

#[test]
fn ollama_done_line_records_calls_and_usage_only() {
    let mut d = OllamaDecoder::new();
    let line = r#"{"message":{"tool_calls":[{"function":{"name":"skill_list","arguments":{}}}]},"done":true,"prompt_eval_count":5,"eval_count":6}"#;
    let done = d.handle_ollama_line(ollama_chunk_of(line).expect("a chunk"));
    assert!(done);
    assert_eq!(d.tool_calls.len(), 1);
    assert_eq!(d.tool_calls[0].id, "call_0");
    assert_eq!(d.tool_calls[0].call_type, "function");
    assert_eq!(d.tool_calls[0].function.name, "skill_list");
    assert_eq!(d.tool_calls[0].function.arguments, "{}");
    assert_eq!(d.usage, Some(Usage { prompt_tokens: 5, completion_tokens: 6 }));
    assert!(d.queue.pending.is_empty());
    d.queue_done();
    assert!(d.tool_calls.is_empty());
    assert_eq!(d.usage, None);
    assert_eq!(d.queue.pending.len(), 1);
    assert!(matches!(&d.queue.pending[0], StreamEvent::Done { tool_calls, .. } if tool_calls.len() == 1));
}

#[test]
fn decoders_stay_finished_after_done() {
    let mut d = SseDecoder::new();
    d.push_bytes(b"data: [DONE]\n\n");
    let mut saw_done = false;
    loop {
        match d.poll() {
            SseStep::Event(StreamEvent::Done { .. }) => saw_done = true,
            SseStep::Event(_) => {}
            SseStep::Finished => break,
            SseStep::Frame(f) => {
                d.handle_frame(&f);
            }
            SseStep::NeedBytes => panic!("the end marker was buffered"),
        }
    }
    assert!(saw_done);
    d.push_bytes(b"data: {\"choices\":[]}\n\ndata: [DONE]\n\n");
    assert!(matches!(d.poll(), SseStep::Finished));
    assert!(matches!(d.poll(), SseStep::Finished));

    let mut o = OllamaDecoder::new();
    o.end_of_stream();
    assert!(matches!(o.poll(), OllamaStep::Event(StreamEvent::Done { .. })));
    o.push_bytes(b"{\"done\":true}\n");
    assert!(matches!(o.poll(), OllamaStep::Finished));
}
