//! The model connection: configuration, the chat message model (roles,
//! multimodal content, tool calls) and the mapping onto Ollama's native chat
//! format.

use vstd::prelude::*;
use crate::text::{
    string_views, chars_of, concat, find_first, find_from_exec, lemma_find_from, owned, push_str, string_from_range,
};

verus! {

/// `serde_json::Value`, carried opaquely in the gateway-specific request
/// fields of a model configuration; nothing is claimed of its contents.
#[verifier::external_type_specification]
#[verifier::external_body]
pub struct ExJsonValue(serde_json::Value);

/// `serde_json::Map`, carried opaquely in the same fields.
#[verifier::external_type_specification]
#[verifier::external_body]
#[verifier::reject_recursive_types(K)]
#[verifier::reject_recursive_types(V)]
pub struct ExJsonMap<K, V>(serde_json::Map<K, V>);

/// Where and how to reach the model.
#[derive(Debug, Clone)]
pub struct ModelConfig {
    /// Base URL of an OpenAI-compatible API, e.g. `http://localhost:11434/v1`.
    pub base_url: String,
    /// Bearer API key; may be empty for a local Ollama.
    pub api_key: String,
    /// Model id, e.g. `qwen2.5:7b`.
    pub model: String,
    /// Use Ollama's native `/api/chat` protocol instead of `/v1`.
    pub native: bool,
    /// Ask the model not to think (reasoning off).
    pub no_think: bool,
    /// Context window to request (native protocol only).
    pub num_ctx: Option<u64>,
    /// Extra gateway-specific request fields, layered over the defaults.
    pub extra_body: Option<serde_json::Map<String, serde_json::Value>>,
}

/// The default model id.
pub fn default_model() -> (r: String)
    ensures
        r@ == "qwen2.5:7b"@,
{
    owned("qwen2.5:7b")
}

/// The default base URL (a local Ollama's `/v1`).
pub fn default_base_url() -> (r: String)
    ensures
        r@ == "http://localhost:11434/v1"@,
{
    owned("http://localhost:11434/v1")
}

impl Default for ModelConfig {
    fn default() -> (r: ModelConfig)
        ensures
            r.base_url@ == "http://localhost:11434/v1"@,
            r.api_key@.len() == 0,
            r.model@ == "qwen2.5:7b"@,
            !r.native,
            !r.no_think,
            r.num_ctx is None,
            r.extra_body is None,
    {
        ModelConfig {
            base_url: default_base_url(),
            api_key: String::new(),
            model: default_model(),
            native: false,
            no_think: false,
            num_ctx: None,
            extra_body: None,
        }
    }
}

/// `s` without trailing `/` characters.
pub open spec fn trim_slashes_end(s: Seq<char>) -> Seq<char>
    decreases s.len(),
{
    if s.len() > 0 && s.last() == '/' {
        trim_slashes_end(s.drop_last())
    } else {
        s
    }
}

/// A string without its trailing `/` characters.
fn trim_end_slashes(s: &str) -> (r: String)
    ensures
        r@ == trim_slashes_end(s@),
{
    let v = chars_of(s);
    let mut j = v.len();
    assert(v@.subrange(0, j as int) =~= v@);
    while j > 0 && v[j - 1] == '/'
        invariant
            j <= v@.len(),
            trim_slashes_end(s@) == trim_slashes_end(v@.subrange(0, j as int)),
            v@ == s@,
        decreases j,
    {
        assert(v@.subrange(0, j as int).drop_last() =~= v@.subrange(0, j - 1));
        j -= 1;
    }
    string_from_range(&v, 0, j)
}

/// The base URL without its trailing `/` and without a final `/v1`.
pub open spec fn api_root(base: Seq<char>) -> Seq<char> {
    let b = trim_slashes_end(base);
    if b.len() >= 3 && b.subrange(b.len() - 3, b.len() as int) == seq!['/', 'v', '1'] {
        b.take(b.len() - 3)
    } else {
        b
    }
}

/// One top-level field of a chat request body. Fields are set in order;
/// a later field under the same key replaces an earlier one.
#[derive(Debug, Clone, Copy, PartialEq, Eq, Structural)]
pub enum BodyField {
    /// `model`: the model id.
    Model,
    /// `messages`: the conversation.
    Messages,
    /// `stream`: `true`.
    Stream,
    /// `stream_options`: `{"include_usage": true}`.
    StreamOptions,
    /// `tools`: the tool specs.
    Tools,
    /// `reasoning_effort`: `"none"`.
    NoReasoning,
    /// `think`: `false`.
    NoThink,
    /// `options`: `{"num_ctx": n}`.
    NumCtx(u64),
    /// The extra body field at this position, under its own key.
    Extra(usize),
}

/// The fields of an OpenAI-compatible request: model, messages, streaming
/// with usage, the tools when there are any, reasoning off when thinking is
/// off, then every extra field, each overriding what came before.
pub open spec fn openai_fields(no_think: bool, has_tools: bool, extras: nat) -> Seq<BodyField> {
    seq![BodyField::Model, BodyField::Messages, BodyField::Stream, BodyField::StreamOptions]
        + (if has_tools { seq![BodyField::Tools] } else { Seq::empty() })
        + (if no_think { seq![BodyField::NoReasoning] } else { Seq::empty() })
        + Seq::new(extras, |i: int| BodyField::Extra(i as usize))
}

/// The fields of a native request: model, messages, streaming, `think`
/// off when thinking is off, the context window when one is set, then the
/// tools when there are any. Extra fields are not sent.
pub open spec fn native_fields(no_think: bool, num_ctx: Option<u64>, has_tools: bool) -> Seq<BodyField> {
    seq![BodyField::Model, BodyField::Messages, BodyField::Stream]
        + (if no_think { seq![BodyField::NoThink] } else { Seq::empty() })
        + (match num_ctx {
        Some(n) => seq![BodyField::NumCtx(n)],
        None => Seq::empty(),
    }) + (if has_tools { seq![BodyField::Tools] } else { Seq::empty() })
}

impl ModelConfig {
    /// The fields of an OpenAI-compatible request body, given whether tools
    /// are offered and how many extra body fields the configuration holds.
    pub fn openai_body_fields(&self, has_tools: bool, extras: usize) -> (r: Vec<BodyField>)
        ensures
            r@ == openai_fields(self.no_think, has_tools, extras as nat),
    {
        let mut r = vec![BodyField::Model, BodyField::Messages, BodyField::Stream, BodyField::StreamOptions];
        if has_tools {
            r.push(BodyField::Tools);
        }
        if self.no_think {
            r.push(BodyField::NoReasoning);
        }
        let ghost base = r@;
        let mut i: usize = 0;
        while i < extras
            invariant
                i <= extras,
                base == (seq![BodyField::Model, BodyField::Messages, BodyField::Stream, BodyField::StreamOptions]
                    + (if has_tools { seq![BodyField::Tools] } else { Seq::empty() }) + (if self.no_think {
                    seq![BodyField::NoReasoning]
                } else {
                    Seq::empty()
                })),
                r@ == base + Seq::new(i as nat, |k: int| BodyField::Extra(k as usize)),
            decreases extras - i,
        {
            r.push(BodyField::Extra(i));
            assert(base + Seq::new((i + 1) as nat, |k: int| BodyField::Extra(k as usize)) =~= (base + Seq::new(
                i as nat,
                |k: int| BodyField::Extra(k as usize),
            )).push(BodyField::Extra(i)));
            i += 1;
        }
        r
    }

    /// The fields of a native request body, given whether tools are offered.
    pub fn native_body_fields(&self, has_tools: bool) -> (r: Vec<BodyField>)
        ensures
            r@ == native_fields(self.no_think, self.num_ctx, has_tools),
    {
        let mut r = vec![BodyField::Model, BodyField::Messages, BodyField::Stream];
        if self.no_think {
            r.push(BodyField::NoThink);
        }
        if let Some(n) = self.num_ctx {
            r.push(BodyField::NumCtx(n));
        }
        if has_tools {
            r.push(BodyField::Tools);
        }
        proof {
            assert(r@ =~= native_fields(self.no_think, self.num_ctx, has_tools));
        }
        r
    }

    /// The full chat-completions URL: the base without trailing `/`, then
    /// `/chat/completions`.
    pub fn chat_url(&self) -> (r: String)
        ensures
            r@ == trim_slashes_end(self.base_url@) + "/chat/completions"@,
    {
        let base = trim_end_slashes(self.base_url.as_str());
        concat(base.as_str(), "/chat/completions")
    }

    /// The native Ollama chat URL: the server root (the base without
    /// trailing `/` and without a final `/v1`), then `/api/chat`.
    pub fn ollama_chat_url(&self) -> (r: String)
        ensures
            r@ == api_root(self.base_url@) + "/api/chat"@,
    {
        let base = trim_end_slashes(self.base_url.as_str());
        let v = chars_of(base.as_str());
        let n = v.len();
        let root = if n >= 3 && v[n - 3] == '/' && v[n - 2] == 'v' && v[n - 1] == '1' {
            assert(v@.subrange(n - 3, n as int) =~= seq!['/', 'v', '1']);
            string_from_range(&v, 0, n - 3)
        } else {
            proof {
                if n >= 3 && v@.subrange(n - 3, n as int) == seq!['/', 'v', '1'] {
                    assert(v@.subrange(n - 3, n as int)[0] == v@[n - 3]);
                    assert(v@.subrange(n - 3, n as int)[1] == v@[n - 2]);
                    assert(v@.subrange(n - 3, n as int)[2] == v@[n - 1]);
                }
            }
            string_from_range(&v, 0, n)
        };
        assert(v@.subrange(0, n as int) =~= v@);
        concat(root.as_str(), "/api/chat")
    }
}

/// Conversation role.
#[derive(Debug, Clone, Copy, PartialEq, Eq, Structural)]
pub enum Role {
    System,
    User,
    Assistant,
    Tool,
}

/// The function name and JSON-encoded arguments of a tool call.
#[derive(Debug, Clone)]
pub struct FunctionCall {
    pub name: String,
    /// Arguments as a JSON-encoded string.
    pub arguments: String,
}

/// A tool call emitted by the assistant.
#[derive(Debug, Clone)]
pub struct ToolCall {
    /// Stable id the tool-result message refers to.
    pub id: String,
    /// The call type (`function`).
    pub call_type: String,
    pub function: FunctionCall,
}

/// One part of a multimodal message.
#[derive(Debug, Clone)]
pub struct ContentPart {
    /// The part's `type` (`text`, `image_url`, ...), if it has one.
    pub kind: Option<String>,
    /// The part's `text`, when it is a string.
    pub text: Option<String>,
    /// The part's `image_url.url`, when it is a string.
    pub image_url: Option<String>,
    /// The whole part as JSON text, sent on unchanged.
    pub raw: String,
}

/// The content of a message: plain text, or a list of multimodal parts.
#[derive(Debug, Clone)]
pub enum Content {
    Text(String),
    Parts(Vec<ContentPart>),
    /// Any other JSON value, as its encoded text.
    Other(String),
}

/// One message in the conversation.
#[derive(Debug, Clone)]
pub struct Message {
    pub role: Role,
    /// Text or multimodal content; none for pure tool-call turns.
    pub content: Option<Content>,
    /// Present on assistant messages that request tool execution.
    pub tool_calls: Option<Vec<ToolCall>>,
    /// Present on tool messages: which tool call this answers.
    pub tool_call_id: Option<String>,
}

/// The text of a message content, if it is plain text.
pub open spec fn content_text(c: Option<Content>) -> Option<Seq<char>> {
    match c {
        Some(Content::Text(s)) => Some(s@),
        _ => None,
    }
}

impl Message {
    /// A system message.
    pub fn system(content: &str) -> (m: Message)
        ensures
            m.role == Role::System,
            content_text(m.content) == Some(content@),
            m.tool_calls is None,
            m.tool_call_id is None,
    {
        Message { role: Role::System, content: Some(Content::Text(owned(content))), tool_calls: None, tool_call_id: None }
    }

    /// A user message.
    pub fn user(content: &str) -> (m: Message)
        ensures
            m.role == Role::User,
            content_text(m.content) == Some(content@),
            m.tool_calls is None,
            m.tool_call_id is None,
    {
        Message { role: Role::User, content: Some(Content::Text(owned(content))), tool_calls: None, tool_call_id: None }
    }

    /// An assistant message holding text.
    pub fn assistant_text(content: &str) -> (m: Message)
        ensures
            m.role == Role::Assistant,
            content_text(m.content) == Some(content@),
            m.tool_calls is None,
            m.tool_call_id is None,
    {
        Message {
            role: Role::Assistant,
            content: Some(Content::Text(owned(content))),
            tool_calls: None,
            tool_call_id: None,
        }
    }

    /// A tool-result message answering a prior tool call.
    pub fn tool_result(tool_call_id: &str, content: &str) -> (m: Message)
        ensures
            m.role == Role::Tool,
            content_text(m.content) == Some(content@),
            m.tool_calls is None,
            m.tool_call_id matches Some(id) && id@ == tool_call_id@,
    {
        Message {
            role: Role::Tool,
            content: Some(Content::Text(owned(content))),
            tool_calls: None,
            tool_call_id: Some(owned(tool_call_id)),
        }
    }
}

/// The plain text of a content: the text itself, the concatenated `text` of
/// the parts that have one, or nothing.
pub open spec fn text_of_content(c: Option<Content>) -> Seq<char> {
    match c {
        Some(Content::Text(s)) => s@,
        Some(Content::Parts(ps)) => part_texts(ps@),
        _ => Seq::empty(),
    }
}

/// The concatenated texts of the parts that have one.
pub open spec fn part_texts(ps: Seq<ContentPart>) -> Seq<char>
    decreases ps.len(),
{
    if ps.len() == 0 {
        Seq::empty()
    } else {
        part_texts(ps.drop_last()) + match ps.last().text {
            Some(t) => t@,
            None => Seq::empty(),
        }
    }
}

/// The plain text of a message content (string or multimodal parts).
pub fn text_of(content: &Option<Content>) -> (r: String)
    ensures
        r@ == text_of_content(*content),
{
    match content {
        Some(Content::Text(s)) => owned(s.as_str()),
        Some(Content::Parts(parts)) => {
            let mut out = String::new();
            let mut i: usize = 0;
            while i < parts.len()
                invariant
                    0 <= i <= parts@.len(),
                    out@ == part_texts(parts@.take(i as int)),
                decreases parts@.len() - i,
            {
                assert(parts@.take(i + 1).drop_last() =~= parts@.take(i as int));
                if let Some(t) = &parts[i].text {
                    push_str(&mut out, t.as_str());
                }
                i += 1;
            }
            assert(parts@.take(parts@.len() as int) =~= parts@);
            out
        },
        _ => String::new(),
    }
}

/// The base64 payload of an image URL: the text after its first `base64,`
/// up to the next `base64,` (none when there is no `base64,`).
pub open spec fn base64_payload(url: Seq<char>) -> Option<Seq<char>> {
    let marker = seq!['b', 'a', 's', 'e', '6', '4', ','];
    match find_first(url, marker) {
        None => None,
        Some(i) => {
            let rest = url.subrange(i + 7, url.len() as int);
            match find_first(rest, marker) {
                None => Some(rest),
                Some(j) => Some(rest.take(j)),
            }
        },
    }
}

/// The base64 payloads of the image parts, in order.
pub open spec fn part_images(ps: Seq<ContentPart>) -> Seq<Seq<char>>
    decreases ps.len(),
{
    if ps.len() == 0 {
        Seq::empty()
    } else {
        let prev = part_images(ps.drop_last());
        match ps.last().image_url {
            Some(u) => match base64_payload(u@) {
                Some(p) => prev.push(p),
                None => prev,
            },
            None => prev,
        }
    }
}

/// The base64 images of a content: those of its image parts.
pub open spec fn images_of_content(c: Option<Content>) -> Seq<Seq<char>> {
    match c {
        Some(Content::Parts(ps)) => part_images(ps@),
        _ => Seq::empty(),
    }
}

/// The base64 payload of an image URL, if it has a `base64,` marker.
fn payload_of(url: &str) -> (r: Option<String>)
    ensures
        r matches Some(p) ==> base64_payload(url@) == Some(p@),
        r is None ==> base64_payload(url@) is None,
{
    let v = chars_of(url);
    let n = v.len();
    let marker = vec!['b', 'a', 's', 'e', '6', '4', ','];
    assert(marker@ =~= seq!['b', 'a', 's', 'e', '6', '4', ',']);
    proof {
        lemma_find_from(v@, marker@, 0);
    }
    match find_from_exec(&v, &marker, 0) {
        None => None,
        Some(i) => {
            assert(crate::text::occurs_at(v@, marker@, i as int));
            let start = i + 7;
            let rest = string_from_range(&v, start, v.len());
            let rv = chars_of(rest.as_str());
            proof {
                lemma_find_from(rv@, marker@, 0);
            }
            match find_from_exec(&rv, &marker, 0) {
                None => Some(rest),
                Some(j) => {
                    assert(crate::text::occurs_at(rv@, marker@, j as int));
                    Some(string_from_range(&rv, 0, j))
                },
            }
        },
    }
}

/// The base64 payloads of the image parts of a content.
pub fn images_of(content: &Option<Content>) -> (r: Vec<String>)
    ensures
        string_views(r@) == images_of_content(*content),
{
    let mut out: Vec<String> = Vec::new();
    match content {
        Some(Content::Parts(parts)) => {
            let mut i: usize = 0;
            while i < parts.len()
                invariant
                    0 <= i <= parts@.len(),
                    string_views(out@) == part_images(parts@.take(i as int)),
                decreases parts@.len() - i,
            {
                assert(parts@.take(i + 1).drop_last() =~= parts@.take(i as int));
                if let Some(u) = &parts[i].image_url {
                    if let Some(p) = payload_of(u.as_str()) {
                        let ghost before = string_views(out@);
                        out.push(p);
                        assert(string_views(out@) =~= before.push(p@));
                    }
                }
                i += 1;
            }
            assert(parts@.take(parts@.len() as int) =~= parts@);
            out
        },
        _ => {
            assert(string_views(out@) =~= Seq::<Seq<char>>::empty());
            out
        },
    }
}

/// A message in Ollama's native chat format.
#[derive(Debug, Clone)]
pub struct NativeMessage {
    pub role: Role,
    /// The content, when the message carries one.
    pub content: Option<Content>,
    /// Base64 images (user messages only).
    pub images: Vec<String>,
    /// Tool calls as name and JSON-encoded arguments (assistant messages).
    pub tool_calls: Option<Vec<FunctionCall>>,
}

/// The native form of a message: user messages carry their text and images,
/// assistant messages their content and tool calls, the others their text.
pub open spec fn native_ok(m: Message, n: NativeMessage) -> bool {
    &&& n.role == m.role
    &&& match m.role {
        Role::User => content_text(n.content) == Some(text_of_content(m.content))
            && string_views(n.images@) == images_of_content(m.content) && n.tool_calls is None,
        Role::Assistant => n.content == m.content && n.images@.len() == 0 && match m.tool_calls {
            Some(cs) => n.tool_calls matches Some(ns) && ns@.len() == cs@.len() && forall|k: int|
                0 <= k < cs@.len() ==> (#[trigger] ns@[k]).name@ == cs@[k].function.name@
                    && ns@[k].arguments@ == cs@[k].function.arguments@,
            None => n.tool_calls is None,
        },
        _ => content_text(n.content) == Some(text_of_content(m.content)) && n.images@.len() == 0
            && n.tool_calls is None,
    }
}

fn copy_function(f: &FunctionCall) -> (r: FunctionCall)
    ensures
        r.name@ == f.name@,
        r.arguments@ == f.arguments@,
{
    FunctionCall { name: owned(f.name.as_str()), arguments: owned(f.arguments.as_str()) }
}

/// Maps one message onto Ollama's native chat format.
pub fn to_native_message(m: Message) -> (r: NativeMessage)
    ensures
        native_ok(m, r),
{
    match m.role {
        Role::User => {
            let t = text_of(&m.content);
            let images = images_of(&m.content);
            let r = NativeMessage { role: Role::User, content: Some(Content::Text(t)), images, tool_calls: None };
            assert(content_text(r.content) == Some(t@));
            r
        },
        Role::Assistant => {
            let tool_calls = match &m.tool_calls {
                Some(calls) => {
                    let mut out: Vec<FunctionCall> = Vec::new();
                    let mut k: usize = 0;
                    while k < calls.len()
                        invariant
                            0 <= k <= calls@.len(),
                            out@.len() == k,
                            forall|j: int|
                                0 <= j < k ==> (#[trigger] out@[j]).name@ == calls@[j].function.name@
                                    && out@[j].arguments@ == calls@[j].function.arguments@,
                        decreases calls@.len() - k,
                    {
                        out.push(copy_function(&calls[k].function));
                        k += 1;
                    }
                    Some(out)
                },
                None => None,
            };
            NativeMessage { role: Role::Assistant, content: m.content, images: Vec::new(), tool_calls }
        },
        _ => NativeMessage {
            role: m.role,
            content: Some(Content::Text(text_of(&m.content))),
            images: Vec::new(),
            tool_calls: None,
        },
    }
}

/// Maps OpenAI-style messages onto Ollama's native chat format.
pub fn to_native_messages(messages: Vec<Message>) -> (r: Vec<NativeMessage>)
    ensures
        r@.len() == messages@.len(),
        forall|k: int| 0 <= k < messages@.len() ==> native_ok(messages@[k], #[trigger] r@[k]),
{
    let ghost orig = messages@;
    let mut src = messages;
    let mut out: Vec<NativeMessage> = Vec::new();
    let mut k: usize = 0;
    let n = src.len();
    assert(orig.subrange(0, orig.len() as int) =~= orig);
    while src.len() > 0
        invariant
            n == orig.len(),
            k + src@.len() == orig.len(),
            src@ == orig.subrange(k as int, orig.len() as int),
            out@.len() == k,
            forall|j: int| 0 <= j < k ==> native_ok(orig[j], #[trigger] out@[j]),
        decreases src@.len(),
    {
        let m = src.remove(0);
        assert(m == orig[k as int]);
        out.push(to_native_message(m));
        k += 1;
        assert(orig.subrange(k as int, orig.len() as int) =~= src@);
    }
    out
}

} // verus!
