//! Messages, and the model's streamed answer.

use crate::json;
use crate::json::Json;
use crate::json::JsonView;
use crate::pieces;
use crate::pieces::lines_of;
use crate::text;
use crate::text::{same, strip_prefix, trimmed};
use vstd::prelude::*;

verus! {

broadcast use crate::text::views_push;

// ── Messages ─────────────────────────────────────────────────────────────────

#[derive(Debug)]
pub struct Message {
    pub role: String,
    pub content: MessageContent,
    pub tool_calls: Vec<ToolCall>,
}

#[derive(Debug)]
pub enum MessageContent {
    Text(String),
    Parts(Vec<ContentPart>),
}

#[derive(Debug)]
pub enum ContentPart {
    Text { text: String },
    ToolResult { tool_use_id: String, content: String },
}

/// A tool that the model may call.
#[derive(Debug)]
pub struct Tool {
    pub name: String,
    pub description: String,
    pub parameters: Json,
}

/// A call that the model asked for.
#[derive(Debug)]
pub struct ToolCall {
    pub id: String,
    pub name: String,
    pub arguments: String,
}

/// What the model answered.
#[derive(Debug)]
pub struct ModelResponse {
    pub text: String,
    pub tool_calls: Vec<ToolCall>,
    pub input_tokens: u32,
    pub output_tokens: u32,
}

/// What a `ToolCall` says.
#[verifier::ext_equal]
pub struct ToolCallView {
    pub id: Seq<char>,
    pub name: Seq<char>,
    pub arguments: Seq<char>,
}

/// What a `ContentPart` says.
pub enum PartView {
    Text(Seq<char>),
    ToolResult(Seq<char>, Seq<char>),
}

/// What a `MessageContent` says.
pub enum ContentView {
    Text(Seq<char>),
    Parts(Seq<PartView>),
}

/// What a `Message` says.
#[verifier::ext_equal]
pub struct MessageView {
    pub role: Seq<char>,
    pub content: ContentView,
    pub tool_calls: Seq<ToolCallView>,
}

impl View for ToolCall {
    type V = ToolCallView;

    open spec fn view(&self) -> ToolCallView {
        ToolCallView { id: self.id@, name: self.name@, arguments: self.arguments@ }
    }
}

impl View for ContentPart {
    type V = PartView;

    open spec fn view(&self) -> PartView {
        match self {
            ContentPart::Text { text } => PartView::Text(text@),
            ContentPart::ToolResult { tool_use_id, content } => PartView::ToolResult(
                tool_use_id@,
                content@,
            ),
        }
    }
}

pub open spec fn part_views(v: Seq<ContentPart>) -> Seq<PartView> {
    Seq::new(v.len(), |i: int| v[i]@)
}

pub open spec fn call_views(v: Seq<ToolCall>) -> Seq<ToolCallView> {
    Seq::new(v.len(), |i: int| v[i]@)
}

impl View for MessageContent {
    type V = ContentView;

    open spec fn view(&self) -> ContentView {
        match self {
            MessageContent::Text(s) => ContentView::Text(s@),
            MessageContent::Parts(v) => ContentView::Parts(part_views(v@)),
        }
    }
}

impl View for Message {
    type V = MessageView;

    open spec fn view(&self) -> MessageView {
        MessageView {
            role: self.role@,
            content: self.content@,
            tool_calls: call_views(self.tool_calls@),
        }
    }
}

pub open spec fn message_views(v: Seq<Message>) -> Seq<MessageView> {
    Seq::new(v.len(), |i: int| v[i]@)
}

/// A message of plain text.
pub open spec fn text_message(role: Seq<char>, text: Seq<char>) -> MessageView {
    MessageView { role, content: ContentView::Text(text), tool_calls: Seq::empty() }
}

/// A message of plain text.
pub fn plain_message(role: &str, text: String) -> (m: Message)
    ensures
        m@ == text_message(role@, text@),
{
    let m = Message {
        role: role.to_owned(),
        content: MessageContent::Text(text),
        tool_calls: Vec::new(),
    };
    assert(call_views(m.tool_calls@) =~= Seq::<ToolCallView>::empty());
    m
}

impl Clone for ToolCall {
    fn clone(&self) -> (r: Self)
        ensures
            r@ == self@,
    {
        ToolCall {
            id: self.id.clone(),
            name: self.name.clone(),
            arguments: self.arguments.clone(),
        }
    }
}

impl Clone for ContentPart {
    fn clone(&self) -> (r: Self)
        ensures
            r@ == self@,
    {
        match self {
            ContentPart::Text { text } => ContentPart::Text { text: text.clone() },
            ContentPart::ToolResult { tool_use_id, content } => ContentPart::ToolResult {
                tool_use_id: tool_use_id.clone(),
                content: content.clone(),
            },
        }
    }
}

pub fn clone_calls(v: &Vec<ToolCall>) -> (r: Vec<ToolCall>)
    ensures
        call_views(r@) == call_views(v@),
{
    let mut out: Vec<ToolCall> = Vec::new();
    let mut i: usize = 0;
    while i < v.len()
        invariant
            i <= v.len(),
            out.len() == i,
            forall|k: int| 0 <= k < i ==> (#[trigger] out@[k])@ == v@[k]@,
        decreases v.len() - i,
    {
        out.push(v[i].clone());
        i += 1;
    }
    assert(call_views(out@) =~= call_views(v@));
    out
}

pub fn clone_parts(v: &Vec<ContentPart>) -> (r: Vec<ContentPart>)
    ensures
        part_views(r@) == part_views(v@),
{
    let mut out: Vec<ContentPart> = Vec::new();
    let mut i: usize = 0;
    while i < v.len()
        invariant
            i <= v.len(),
            out.len() == i,
            forall|k: int| 0 <= k < i ==> (#[trigger] out@[k])@ == v@[k]@,
        decreases v.len() - i,
    {
        out.push(v[i].clone());
        i += 1;
    }
    assert(part_views(out@) =~= part_views(v@));
    out
}

impl Clone for MessageContent {
    fn clone(&self) -> (r: Self)
        ensures
            r@ == self@,
    {
        match self {
            MessageContent::Text(s) => MessageContent::Text(s.clone()),
            MessageContent::Parts(v) => MessageContent::Parts(clone_parts(v)),
        }
    }
}

impl Clone for Message {
    fn clone(&self) -> (r: Self)
        ensures
            r@ == self@,
    {
        Message {
            role: self.role.clone(),
            content: self.content.clone(),
            tool_calls: clone_calls(&self.tool_calls),
        }
    }
}

impl Default for MessageContent {
    fn default() -> (r: Self)
        ensures
            r@ == ContentView::Text(Seq::empty()),
    {
        MessageContent::Text(String::new())
    }
}

impl Default for Message {
    fn default() -> (r: Self)
        ensures
            r@ == text_message(Seq::empty(), Seq::empty()),
    {
        let r = Message {
            role: String::new(),
            content: MessageContent::Text(String::new()),
            tool_calls: Vec::new(),
        };
        assert(call_views(r.tool_calls@) =~= Seq::<ToolCallView>::empty());
        r
    }
}

impl From<&str> for MessageContent {
    fn from(s: &str) -> (r: Self)
        ensures
            r@ == ContentView::Text(s@),
    {
        MessageContent::Text(s.to_owned())
    }
}

impl vstd::std_specs::convert::FromSpecImpl<&str> for MessageContent {
    open spec fn obeys_from_spec() -> bool {
        false
    }

    open spec fn from_spec(s: &str) -> Self {
        arbitrary()
    }
}

impl From<String> for MessageContent {
    fn from(s: String) -> (r: Self) {
        MessageContent::Text(s)
    }
}

impl vstd::std_specs::convert::FromSpecImpl<String> for MessageContent {
    open spec fn obeys_from_spec() -> bool {
        true
    }

    open spec fn from_spec(s: String) -> Self {
        MessageContent::Text(s)
    }
}

// ── The request ──────────────────────────────────────────────────────────────

/// Where requests go, and how they are signed.
#[derive(Debug)]
pub struct Client {
    pub endpoint: String,
    pub model: String,
    pub api_key: Option<String>,
}

pub open spec fn pair(k1: Seq<char>, v1: JsonView, k2: Seq<char>, v2: JsonView) -> JsonView {
    JsonView::Object(seq![(k1, v1), (k2, v2)])
}

pub open spec fn triple(
    k1: Seq<char>,
    v1: JsonView,
    k2: Seq<char>,
    v2: JsonView,
    k3: Seq<char>,
    v3: JsonView,
) -> JsonView {
    JsonView::Object(seq![(k1, v1), (k2, v2), (k3, v3)])
}

pub(crate) fn object1(k1: &str, v1: Json) -> (r: Json)
    ensures
        r@ == JsonView::Object(seq![(k1@, v1@)]),
{
    let mut v: Vec<(String, Json)> = Vec::new();
    v.push((k1.to_owned(), v1));
    let r = Json::Object(v);
    assert(r@->Object_0 =~= seq![(k1@, v1@)]);
    r
}

pub(crate) fn object2(k1: &str, v1: Json, k2: &str, v2: Json) -> (r: Json)
    ensures
        r@ == pair(k1@, v1@, k2@, v2@),
{
    let mut v: Vec<(String, Json)> = Vec::new();
    v.push((k1.to_owned(), v1));
    v.push((k2.to_owned(), v2));
    let r = Json::Object(v);
    assert(r@->Object_0 =~= seq![(k1@, v1@), (k2@, v2@)]);
    r
}

pub(crate) fn object3(k1: &str, v1: Json, k2: &str, v2: Json, k3: &str, v3: Json) -> (r: Json)
    ensures
        r@ == triple(k1@, v1@, k2@, v2@, k3@, v3@),
{
    let mut v: Vec<(String, Json)> = Vec::new();
    v.push((k1.to_owned(), v1));
    v.push((k2.to_owned(), v2));
    v.push((k3.to_owned(), v3));
    let r = Json::Object(v);
    assert(r@->Object_0 =~= seq![(k1@, v1@), (k2@, v2@), (k3@, v3@)]);
    r
}

pub(crate) fn text_json(s: &str) -> (r: Json)
    ensures
        r@ == JsonView::Text(s@),
{
    Json::Text(s.to_owned())
}

fn list_json(v: Vec<Json>) -> (r: Json)
    ensures
        r@ == JsonView::List(json::json_views(v@)),
{
    let r = Json::List(v);
    assert(r@->List_0 =~= json::json_views(v@));
    r
}

/// A tool call on the wire.
pub open spec fn call_row(c: ToolCallView) -> JsonView {
    triple(
        "id"@,
        JsonView::Text(c.id),
        "type"@,
        JsonView::Text("function"@),
        "function"@,
        pair("name"@, JsonView::Text(c.name), "arguments"@, JsonView::Text(c.arguments)),
    )
}

/// One part of a message on the wire: a tool result is a message of its own.
pub open spec fn part_row(role: Seq<char>, p: PartView) -> JsonView {
    match p {
        PartView::ToolResult(id, content) => triple(
            "role"@,
            JsonView::Text("tool"@),
            "tool_call_id"@,
            JsonView::Text(id),
            "content"@,
            JsonView::Text(content),
        ),
        PartView::Text(t) => pair("role"@, JsonView::Text(role), "content"@, JsonView::Text(t)),
    }
}

/// A message on the wire: one row, or one for each of its parts.
pub open spec fn message_rows(m: MessageView) -> Seq<JsonView> {
    match m.content {
        ContentView::Text(t) => if m.tool_calls.len() > 0 {
            seq![
                triple(
                    "role"@,
                    JsonView::Text(m.role),
                    "content"@,
                    JsonView::Text(t),
                    "tool_calls"@,
                    JsonView::List(
                        Seq::new(m.tool_calls.len(), |i: int| call_row(m.tool_calls[i])),
                    ),
                ),
            ]
        } else {
            seq![pair("role"@, JsonView::Text(m.role), "content"@, JsonView::Text(t))]
        },
        ContentView::Parts(ps) => Seq::new(ps.len(), |i: int| part_row(m.role, ps[i])),
    }
}

pub open spec fn all_rows(ms: Seq<MessageView>) -> Seq<JsonView>
    decreases ms.len(),
{
    if ms.len() == 0 {
        Seq::empty()
    } else {
        all_rows(ms.drop_last()) + message_rows(ms.last())
    }
}

/// The `messages` of a request.
pub open spec fn request_rows(system: Seq<char>, ms: Seq<MessageView>) -> Seq<JsonView> {
    (if system.len() == 0 {
        Seq::empty()
    } else {
        seq![pair("role"@, JsonView::Text("system"@), "content"@, JsonView::Text(system))]
    }) + all_rows(ms)
}

fn call_rows(calls: &Vec<ToolCall>) -> (r: Vec<Json>)
    ensures
        json::json_views(r@) == Seq::new(
            calls@.len(),
            |i: int| call_row(call_views(calls@)[i]),
        ),
{
    let mut out: Vec<Json> = Vec::new();
    let mut i: usize = 0;
    while i < calls.len()
        invariant
            i <= calls.len(),
            out.len() == i,
            forall|k: int| 0 <= k < i ==> (#[trigger] out@[k])@ == call_row(calls@[k]@),
        decreases calls.len() - i,
    {
        let c = &calls[i];
        let f = object2(
            "name",
            text_json(c.name.as_str()),
            "arguments",
            text_json(c.arguments.as_str()),
        );
        out.push(
            object3(
                "id",
                text_json(c.id.as_str()),
                "type",
                text_json("function"),
                "function",
                f,
            ),
        );
        i += 1;
    }
    assert(json::json_views(out@) =~= Seq::new(
        calls@.len(),
        |i: int| call_row(call_views(calls@)[i]),
    ));
    out
}

/// The messages as the API takes them: the system prompt first, unless it
/// is empty; tool results as messages of their own.
pub fn build_messages(system: &str, messages: &[Message]) -> (r: Vec<Json>)
    ensures
        json::json_views(r@) == request_rows(system@, message_views(messages@)),
{
    let mut out: Vec<Json> = Vec::new();
    let ghost head = if system@.len() == 0 {
        Seq::<JsonView>::empty()
    } else {
        seq![pair("role"@, JsonView::Text("system"@), "content"@, JsonView::Text(system@))]
    };
    if !system.is_empty() {
        out.push(object2("role", text_json("system"), "content", text_json(system)));
    }
    assert(json::json_views(out@) =~= head);
    let ghost ms = message_views(messages@);
    let mut i: usize = 0;
    assert(ms.take(0) =~= Seq::<MessageView>::empty());
    assert(head + all_rows(ms.take(0)) =~= head);
    while i < messages.len()
        invariant
            i <= messages.len(),
            ms == message_views(messages@),
            json::json_views(out@) == head + all_rows(ms.take(i as int)),
        decreases messages.len() - i,
    {
        let msg = &messages[i];
        let ghost before = json::json_views(out@);
        proof {
            assert(ms.take(i + 1).drop_last() =~= ms.take(i as int));
            assert(ms.take(i + 1).last() == msg@);
        }
        match &msg.content {
            MessageContent::Text(t) => {
                if msg.tool_calls.len() > 0 {
                    let rows = call_rows(&msg.tool_calls);
                    out.push(
                        object3(
                            "role",
                            text_json(msg.role.as_str()),
                            "content",
                            text_json(t.as_str()),
                            "tool_calls",
                            list_json(rows),
                        ),
                    );
                } else {
                    out.push(
                        object2(
                            "role",
                            text_json(msg.role.as_str()),
                            "content",
                            text_json(t.as_str()),
                        ),
                    );
                }
                assert(json::json_views(out@) =~= before + message_rows(msg@));
            },
            MessageContent::Parts(parts) => {
                let mut j: usize = 0;
                let ghost rows = message_rows(msg@);
                assert(before =~= before + rows.take(0));
                while j < parts.len()
                    invariant
                        j <= parts.len(),
                        msg.content == MessageContent::Parts(*parts),
                        rows == message_rows(msg@),
                        rows.len() == parts.len(),
                        json::json_views(out@) == before + rows.take(j as int),
                    decreases parts.len() - j,
                {
                    let ghost so_far = json::json_views(out@);
                    match &parts[j] {
                        ContentPart::ToolResult { tool_use_id, content } => {
                            out.push(
                                object3(
                                    "role",
                                    text_json("tool"),
                                    "tool_call_id",
                                    text_json(tool_use_id.as_str()),
                                    "content",
                                    text_json(content.as_str()),
                                ),
                            );
                        },
                        ContentPart::Text { text } => {
                            out.push(
                                object2(
                                    "role",
                                    text_json(msg.role.as_str()),
                                    "content",
                                    text_json(text.as_str()),
                                ),
                            );
                        },
                    }
                    assert(rows[j as int] == part_row(msg.role@, parts@[j as int]@));
                    assert(json::json_views(out@) =~= so_far.push(rows[j as int]));
                    assert(before + rows.take(j + 1) =~= so_far.push(rows[j as int]));
                    j += 1;
                }
                assert(rows.take(j as int) =~= rows);
            },
        }
        assert(head + all_rows(ms.take(i + 1)) =~= head + all_rows(ms.take(i as int)) + message_rows(
            msg@,
        ));
        i += 1;
    }
    assert(ms.take(i as int) =~= ms);
    out
}

/// A tool on the wire.
pub open spec fn tool_row(t: Tool) -> JsonView {
    pair(
        "type"@,
        JsonView::Text("function"@),
        "function"@,
        triple(
            "name"@,
            JsonView::Text(t.name@),
            "description"@,
            JsonView::Text(t.description@),
            "parameters"@,
            t.parameters@,
        ),
    )
}

/// The body of a request for a streamed answer. Tools are named only where
/// there are any.
pub open spec fn request_body(
    model: Seq<char>,
    system: Seq<char>,
    ms: Seq<MessageView>,
    tools: Seq<Tool>,
) -> JsonView {
    let base = seq![
        ("model"@, JsonView::Text(model)),
        ("stream"@, JsonView::Bool(true)),
        (
            "stream_options"@,
            JsonView::Object(seq![("include_usage"@, JsonView::Bool(true))]),
        ),
        ("messages"@, JsonView::List(request_rows(system, ms))),
    ];
    if tools.len() == 0 {
        JsonView::Object(base)
    } else {
        JsonView::Object(
            base.push(
                ("tools"@, JsonView::List(Seq::new(tools.len(), |i: int| tool_row(tools[i])))),
            ).push(("tool_choice"@, JsonView::Text("auto"@))),
        )
    }
}

pub open spec fn members(v: Seq<(String, Json)>) -> Seq<(Seq<char>, JsonView)> {
    Seq::new(v.len(), |i: int| (v[i].0@, v[i].1@))
}

impl Client {
    pub fn new(endpoint: String, model: String) -> (r: Self)
        ensures
            r.endpoint == endpoint,
            r.model == model,
            r.api_key is None,
    {
        Client { endpoint, model, api_key: None }
    }

    pub fn set_api_key(&mut self, key: String)
        ensures
            final(self).endpoint == old(self).endpoint,
            final(self).model == old(self).model,
            final(self).api_key == Some(key),
    {
        self.api_key = Some(key);
    }

    /// The `Authorization` header, where there is a key.
    pub fn authorization(&self) -> (r: Option<String>)
        ensures
            text::opt_text(r) == (match self.api_key {
                Some(k) => Some("Bearer "@ + k@),
                None => None,
            }),
    {
        match &self.api_key {
            Some(k) => {
                let mut s = "Bearer ".to_owned();
                s.append(k.as_str());
                Some(s)
            },
            None => None,
        }
    }

    /// The body of the request that asks for an answer to `messages`.
    pub fn chat_body(&self, system: &str, messages: &[Message], tools: Vec<Tool>) -> (r: Json)
        ensures
            r@ == request_body(self.model@, system@, message_views(messages@), tools@),
    {
        let mut v: Vec<(String, Json)> = Vec::new();
        v.push(("model".to_owned(), text_json(self.model.as_str())));
        v.push(("stream".to_owned(), Json::Bool(true)));
        let opts = object1("include_usage", Json::Bool(true));
        v.push(("stream_options".to_owned(), opts));
        v.push(("messages".to_owned(), list_json(build_messages(system, messages))));
        let ghost rows = JsonView::List(request_rows(system@, message_views(messages@)));
        let ghost base = seq![
            ("model"@, JsonView::Text(self.model@)),
            ("stream"@, JsonView::Bool(true)),
            (
                "stream_options"@,
                JsonView::Object(seq![("include_usage"@, JsonView::Bool(true))]),
            ),
            ("messages"@, rows),
        ];
        assert(members(v@) =~= base);
        if tools.len() > 0 {
            let ghost given = tools@;
            let mut left = tools;
            let mut out: Vec<Json> = Vec::new();
            while left.len() > 0
                invariant
                    left.len() + out.len() == given.len(),
                    left@ == given.skip(out.len() as int),
                    forall|k: int| 0 <= k < out.len() ==> (#[trigger] out@[k])@ == tool_row(given[k]),
                decreases left.len(),
            {
                let t = left.remove(0);
                assert(t == given[out@.len() as int]);
                let f = object3(
                    "name",
                    Json::Text(t.name),
                    "description",
                    Json::Text(t.description),
                    "parameters",
                    t.parameters,
                );
                out.push(object2("type", text_json("function"), "function", f));
                assert(left@ =~= given.skip(out.len() as int));
            }
            v.push(("tools".to_owned(), list_json(out)));
            v.push(("tool_choice".to_owned(), text_json("auto")));
            assert(json::json_views(out@) =~= Seq::new(given.len(), |i: int| tool_row(given[i])));
            let ghost full = base.push(
                ("tools"@, JsonView::List(Seq::new(given.len(), |i: int| tool_row(given[i])))),
            ).push(("tool_choice"@, JsonView::Text("auto"@)));
            assert(members(v@) =~= full);
        }
        let r = Json::Object(v);
        assert(r@->Object_0 =~= members(v@));
        r
    }
}

/// The text of the error for a refused request.
pub fn api_error(status: &str, body: &str) -> (r: String)
    ensures
        r@ == "API error "@ + status@ + ": "@ + body@,
{
    let mut s = "API error ".to_owned();
    s.append(status);
    s.append(": ");
    s.append(body);
    s
}


// ── The streamed answer ──────────────────────────────────────────────────────

/// One event of the stream.
#[derive(Debug)]
pub struct StreamChunk {
    pub choices: Option<Vec<StreamChoice>>,
    pub usage: Option<UsageStats>,
}

#[derive(Debug)]
pub struct StreamChoice {
    pub delta: Option<Delta>,
}

#[derive(Debug)]
pub struct Delta {
    pub content: Option<String>,
    /// Thinking, from models that send it apart.
    pub reasoning_content: Option<String>,
    /// Another name for the same field.
    pub reasoning: Option<String>,
    pub tool_calls: Option<Vec<ToolCallDelta>>,
}

#[derive(Debug)]
pub struct ToolCallDelta {
    pub index: usize,
    pub id: Option<String>,
    pub function: Option<FunctionDelta>,
}

#[derive(Debug)]
pub struct FunctionDelta {
    pub name: Option<String>,
    pub arguments: Option<String>,
}

#[derive(Debug, Clone, Copy)]
pub struct UsageStats {
    pub prompt_tokens: Option<u32>,
    pub completion_tokens: Option<u32>,
}

/// A tool call of which parts have arrived.
#[derive(Debug)]
pub struct PendingToolCall {
    pub id: String,
    pub name: String,
    pub arguments: String,
}

impl View for PendingToolCall {
    type V = ToolCallView;

    open spec fn view(&self) -> ToolCallView {
        ToolCallView { id: self.id@, name: self.name@, arguments: self.arguments@ }
    }
}

pub open spec fn no_call() -> ToolCallView {
    ToolCallView { id: Seq::empty(), name: Seq::empty(), arguments: Seq::empty() }
}

impl Default for PendingToolCall {
    fn default() -> (r: Self)
        ensures
            r@ == no_call(),
    {
        PendingToolCall { id: String::new(), name: String::new(), arguments: String::new() }
    }
}

pub open spec fn pending_views(v: Seq<PendingToolCall>) -> Seq<ToolCallView> {
    Seq::new(v.len(), |i: int| v[i]@)
}

/// What has arrived of an answer.
#[derive(Debug)]
pub struct ChatStream {
    pub text: String,
    pub reasoning: String,
    pub pending: Vec<PendingToolCall>,
    pub input_tokens: u32,
    pub output_tokens: u32,
    /// A line that was cut off and waits for its rest.
    pub leftover: String,
    /// Whether a thinking block is open.
    pub reasoning_open: bool,
}

/// What a `ChatStream` holds.
#[verifier::ext_equal]
pub struct StreamView {
    pub text: Seq<char>,
    pub reasoning: Seq<char>,
    pub pending: Seq<ToolCallView>,
    pub input_tokens: u32,
    pub output_tokens: u32,
    pub leftover: Seq<char>,
    pub open: bool,
}

impl View for ChatStream {
    type V = StreamView;

    open spec fn view(&self) -> StreamView {
        StreamView {
            text: self.text@,
            reasoning: self.reasoning@,
            pending: pending_views(self.pending@),
            input_tokens: self.input_tokens,
            output_tokens: self.output_tokens,
            leftover: self.leftover@,
            open: self.reasoning_open,
        }
    }
}

/// Nothing has arrived yet.
pub open spec fn empty_stream() -> StreamView {
    StreamView {
        text: Seq::empty(),
        reasoning: Seq::empty(),
        pending: Seq::empty(),
        input_tokens: 0,
        output_tokens: 0,
        leftover: Seq::empty(),
        open: false,
    }
}

/// The thinking that a delta brings, from whichever field holds it.
pub open spec fn thought(d: Delta) -> Option<Seq<char>> {
    match d.reasoning_content {
        Some(s) => Some(s@),
        None => text::opt_text(d.reasoning),
    }
}

/// Whether a thinking block is open once the thinking of a delta is in.
pub open spec fn open_after_thought(open: bool, t: Option<Seq<char>>) -> bool {
    match t {
        Some(s) => open || s.len() > 0,
        None => false,
    }
}

/// What is shown for the thinking of a delta: the tag that opens the block
/// before its first text, the tag that closes it once thinking stops.
pub open spec fn shown_thought(open: bool, t: Option<Seq<char>>) -> Seq<Seq<char>> {
    match t {
        Some(s) => if s.len() == 0 {
            Seq::empty()
        } else if open {
            seq![s]
        } else {
            seq!["<think>"@, s]
        },
        None => if open {
            seq!["</think>"@]
        } else {
            Seq::empty()
        },
    }
}

/// Whether the block is still open behind the text of a delta.
pub open spec fn open_after_content(open: bool, c: Option<Seq<char>>) -> bool {
    match c {
        Some(s) => open && s.len() == 0,
        None => open,
    }
}

/// What is shown for the text of a delta.
pub open spec fn shown_content(open: bool, c: Option<Seq<char>>) -> Seq<Seq<char>> {
    match c {
        Some(s) => if !open {
            seq![s]
        } else if s.len() > 0 {
            seq!["</think>"@, s]
        } else {
            Seq::empty()
        },
        None => Seq::empty(),
    }
}

/// The text an optional field adds.
pub open spec fn added(o: Option<Seq<char>>) -> Seq<char> {
    match o {
        Some(s) => s,
        None => Seq::empty(),
    }
}

/// The list, made long enough for position `i`.
pub open spec fn grown(p: Seq<ToolCallView>, i: int) -> Seq<ToolCallView> {
    Seq::new(
        if p.len() <= i {
            (i + 1) as nat
        } else {
            p.len()
        },
        |k: int|
            if k < p.len() {
                p[k]
            } else {
                no_call()
            },
    )
}

/// A pending call with one more piece: an id replaces the id, names and
/// arguments are added on.
pub open spec fn call_after(c: ToolCallView, d: ToolCallDelta) -> ToolCallView {
    ToolCallView {
        id: match d.id {
            Some(s) => s@,
            None => c.id,
        },
        name: match d.function {
            Some(f) => c.name + added(text::opt_text(f.name)),
            None => c.name,
        },
        arguments: match d.function {
            Some(f) => c.arguments + added(text::opt_text(f.arguments)),
            None => c.arguments,
        },
    }
}

pub open spec fn pending_after(p: Seq<ToolCallView>, d: ToolCallDelta) -> Seq<ToolCallView> {
    let g = grown(p, d.index as int);
    g.update(d.index as int, call_after(g[d.index as int], d))
}

pub open spec fn pending_after_all(
    p: Seq<ToolCallView>,
    ds: Seq<ToolCallDelta>,
) -> Seq<ToolCallView>
    decreases ds.len(),
{
    if ds.len() == 0 {
        p
    } else {
        pending_after(pending_after_all(p, ds.drop_last()), ds.last())
    }
}

pub open spec fn delta_calls(d: Delta) -> Seq<ToolCallDelta> {
    match d.tool_calls {
        Some(v) => v@,
        None => Seq::empty(),
    }
}

/// The state behind one delta.
pub open spec fn after_delta(s: StreamView, d: Delta) -> StreamView {
    StreamView {
        text: s.text + added(text::opt_text(d.content)),
        reasoning: s.reasoning + added(thought(d)),
        pending: pending_after_all(s.pending, delta_calls(d)),
        open: open_after_content(
            open_after_thought(s.open, thought(d)),
            text::opt_text(d.content),
        ),
        ..s
    }
}

/// What is shown for one delta.
pub open spec fn shown_delta(open: bool, d: Delta) -> Seq<Seq<char>> {
    shown_thought(open, thought(d)) + shown_content(
        open_after_thought(open, thought(d)),
        text::opt_text(d.content),
    )
}

/// The deltas of an event, in order.
pub open spec fn choice_deltas(cs: Seq<StreamChoice>) -> Seq<Delta>
    decreases cs.len(),
{
    if cs.len() == 0 {
        Seq::empty()
    } else {
        match cs.last().delta {
            Some(d) => choice_deltas(cs.drop_last()).push(d),
            None => choice_deltas(cs.drop_last()),
        }
    }
}

pub open spec fn chunk_deltas(c: StreamChunk) -> Seq<Delta> {
    match c.choices {
        Some(v) => choice_deltas(v@),
        None => Seq::empty(),
    }
}

pub open spec fn after_deltas(s: StreamView, ds: Seq<Delta>) -> StreamView
    decreases ds.len(),
{
    if ds.len() == 0 {
        s
    } else {
        after_delta(after_deltas(s, ds.drop_last()), ds.last())
    }
}

pub open spec fn shown_deltas(s: StreamView, ds: Seq<Delta>) -> Seq<Seq<char>>
    decreases ds.len(),
{
    if ds.len() == 0 {
        Seq::empty()
    } else {
        shown_deltas(s, ds.drop_last()) + shown_delta(after_deltas(s, ds.drop_last()).open, ds.last())
    }
}

/// The state with the token counts that an event brings.
pub open spec fn with_usage(s: StreamView, u: Option<UsageStats>) -> StreamView {
    match u {
        Some(u) => StreamView {
            input_tokens: match u.prompt_tokens {
                Some(n) => n,
                None => 0,
            },
            output_tokens: match u.completion_tokens {
                Some(n) => n,
                None => 0,
            },
            ..s
        },
        None => s,
    }
}

/// Whether the positions of an event's tool calls can be reached by a list.
pub open spec fn reachable(ds: Seq<Delta>) -> bool {
    forall|i: int, k: int|
        0 <= i < ds.len() && 0 <= k < delta_calls(ds[i]).len() ==> (
        #[trigger] delta_calls(ds[i])[k]).index < usize::MAX
}

/// The JSON of a line: what stands behind `data: `, unless the line ends
/// the stream.
pub open spec fn data_of(line: Seq<char>) -> Option<Seq<char>> {
    let t = text::trim(line);
    if t.len() == 0 || t == "data: [DONE]"@ {
        None
    } else {
        text::behind(t, "data: "@)
    }
}

pub open spec fn data_lines(ls: Seq<Seq<char>>) -> Seq<Seq<char>>
    decreases ls.len(),
{
    if ls.len() == 0 {
        Seq::empty()
    } else {
        match data_of(ls.last()) {
            Some(d) => data_lines(ls.drop_last()).push(d),
            None => data_lines(ls.drop_last()),
        }
    }
}

/// The calls that have a name.
pub open spec fn named_calls(p: Seq<ToolCallView>) -> Seq<ToolCallView>
    decreases p.len(),
{
    if p.len() == 0 {
        Seq::empty()
    } else if p.last().name.len() > 0 {
        named_calls(p.drop_last()).push(p.last())
    } else {
        named_calls(p.drop_last())
    }
}

/// The answer's text: the thinking where nothing else came.
pub open spec fn answer_text(s: StreamView) -> Seq<char> {
    if s.text.len() == 0 && s.reasoning.len() > 0 {
        s.reasoning
    } else {
        s.text
    }
}

impl ChatStream {
    pub fn new() -> (r: Self)
        ensures
            r@ == empty_stream(),
    {
        let r = ChatStream {
            text: String::new(),
            reasoning: String::new(),
            pending: Vec::new(),
            input_tokens: 0,
            output_tokens: 0,
            leftover: String::new(),
            reasoning_open: false,
        };
        assert(r@ =~= empty_stream());
        r
    }

    /// Takes in bytes of the stream as text, behind what was left over, and
    /// gives back the JSON of each of its lines.
    pub fn take_in(&mut self, raw: &str) -> (r: Vec<String>)
        ensures
            text::views(r@) == data_lines(pieces::lines(old(self).leftover@ + raw@)),
            final(self)@ == (StreamView { leftover: Seq::empty(), ..old(self)@ }),
    {
        let mut combined = self.leftover.clone();
        combined.append(raw);
        self.leftover = String::new();
        let ls = lines_of(combined.as_str());
        let ghost all = text::views(ls@);
        let mut out: Vec<String> = Vec::new();
        let mut i: usize = 0;
        proof {
            text::views_empty();
            assert(all.take(0) =~= Seq::<Seq<char>>::empty());
        }
        while i < ls.len()
            invariant
                i <= ls.len(),
                all == text::views(ls@),
                text::views(out@) == data_lines(all.take(i as int)),
            decreases ls.len() - i,
        {
            proof {
                assert(all.take(i + 1).drop_last() =~= all.take(i as int));
                assert(all.take(i + 1).last() == ls@[i as int]@);
            }
            let t = trimmed(ls[i].as_str());
            if !(t.as_str().is_empty() || same(t.as_str(), "data: [DONE]")) {
                match strip_prefix(t.as_str(), "data: ") {
                    Some(d) => {
                        out.push(d);
                    },
                    None => {},
                }
            }
            i += 1;
        }
        assert(all.take(i as int) =~= all);
        out
    }

    /// Takes in one line's JSON and gives back the texts to show. `event` is
    /// what the JSON says; where it is none, it was cut off, and waits for the
    /// next bytes.
    pub fn event(&mut self, data: &str, event: Option<StreamChunk>) -> (shown: Vec<String>)
        requires
            event matches Some(c) ==> reachable(chunk_deltas(c)),
        ensures
            match event {
                Some(c) => text::views(shown@) == shown_deltas(
                    with_usage(old(self)@, c.usage),
                    chunk_deltas(c),
                ) && final(self)@ == after_deltas(
                    with_usage(old(self)@, c.usage),
                    chunk_deltas(c),
                ),
                None => shown@.len() == 0 && final(self)@ == (StreamView {
                    leftover: "data: "@ + data@,
                    ..old(self)@
                }),
            },
    {
        match event {
            Some(c) => self.chunk(c),
            None => {
                self.keep_back(data);
                Vec::new()
            },
        }
    }

    /// Keeps a line whose JSON was cut off for the next bytes.
    fn keep_back(&mut self, data: &str)
        ensures
            final(self)@ == (StreamView { leftover: "data: "@ + data@, ..old(self)@ }),
    {
        let mut s = "data: ".to_owned();
        s.append(data);
        self.leftover = s;
    }

    fn call_piece(&mut self, d: ToolCallDelta)
        requires
            d.index < usize::MAX,
        ensures
            final(self)@ == (StreamView {
                pending: pending_after(old(self)@.pending, d),
                ..old(self)@
            }),
    {
        let ghost p = self@.pending;
        let ghost before = self@;
        while self.pending.len() <= d.index
            invariant
                self.pending.len() >= p.len(),
                self.pending.len() <= p.len() || self.pending.len() <= d.index + 1,
                d.index < usize::MAX,
                forall|k: int| 0 <= k < p.len() ==> #[trigger] self@.pending[k] == p[k],
                forall|k: int|
                    p.len() <= k < self.pending.len() ==> #[trigger] self@.pending[k] == no_call(),
                self@ == (StreamView { pending: self@.pending, ..before }),
            decreases d.index + 1 - self.pending.len(),
        {
            let ghost so_far = self@.pending;
            self.pending.push(PendingToolCall::default());
            assert(self@.pending =~= so_far.push(no_call()));
        }
        let ghost g = grown(p, d.index as int);
        assert(self@.pending =~= g);
        let i: usize = d.index;
        let mut entry = PendingToolCall {
            id: self.pending[i].id.clone(),
            name: self.pending[i].name.clone(),
            arguments: self.pending[i].arguments.clone(),
        };
        assert(entry@ == g[i as int]);
        match d.id {
            Some(id) => {
                entry.id = id;
            },
            None => {},
        }
        match d.function {
            Some(f) => {
                match f.name {
                    Some(n) => {
                        entry.name.append(n.as_str());
                    },
                    None => {},
                }
                match f.arguments {
                    Some(a) => {
                        entry.arguments.append(a.as_str());
                    },
                    None => {},
                }
            },
            None => {},
        }
        assert(entry@ =~= call_after(g[i as int], d));
        self.pending.set(i, entry);
        assert(self@.pending =~= pending_after(p, d));
    }

    /// Takes in one delta and gives back the texts to show.
    pub fn delta(&mut self, d: Delta) -> (shown: Vec<String>)
        requires
            reachable(seq![d]),
        ensures
            text::views(shown@) == shown_delta(old(self)@.open, d),
            final(self)@ == after_delta(old(self)@, d),
    {
        let ghost before = self@;
        let ghost t = thought(d);
        let mut shown: Vec<String> = Vec::new();
        proof {
            text::views_empty();
            assert(seq![d][0] == d);
        }
        let rc = match d.reasoning_content {
            Some(s) => Some(s),
            None => d.reasoning,
        };
        match rc {
            Some(rc) => {
                if !rc.as_str().is_empty() {
                    if !self.reasoning_open {
                        shown.push("<think>".to_owned());
                        self.reasoning_open = true;
                    }
                    self.reasoning.append(rc.as_str());
                    shown.push(rc);
                } else {
                    assert(self.reasoning@ =~= self.reasoning@ + rc@);
                }
            },
            None => {
                if self.reasoning_open {
                    shown.push("</think>".to_owned());
                    self.reasoning_open = false;
                }
            },
        }
        let ghost shown1 = text::views(shown@);
        assert(shown1 =~= shown_thought(before.open, t));
        let ghost open1 = self.reasoning_open;
        assert(self.reasoning@ =~= before.reasoning + added(t));
        match d.content {
            Some(c) => {
                if self.reasoning_open {
                    if !c.as_str().is_empty() {
                        shown.push("</think>".to_owned());
                        self.reasoning_open = false;
                        self.text.append(c.as_str());
                        shown.push(c);
                    }
                } else {
                    self.text.append(c.as_str());
                    shown.push(c);
                }
            },
            None => {},
        }
        assert(text::views(shown@) =~= shown_delta(before.open, d));
        assert(self.text@ =~= before.text + added(text::opt_text(d.content)));
        let ghost calls = delta_calls(d);
        match d.tool_calls {
            Some(v) => {
                let mut left = v;
                let total: usize = left.len();
                let mut n: usize = 0;
                let ghost here = self@;
                assert(calls.take(0) =~= Seq::<ToolCallDelta>::empty());
                while left.len() > 0
                    invariant
                        n + left.len() == calls.len(),
                        total == calls.len(),
                        left@ == calls.skip(n as int),
                        self@ == (StreamView {
                            pending: pending_after_all(here.pending, calls.take(n as int)),
                            ..here
                        }),
                        forall|k: int| 0 <= k < calls.len() ==> (#[trigger] calls[k]).index < usize::MAX,
                    decreases left.len(),
                {
                    let c = left.remove(0);
                    assert(c == calls[n as int]);
                    self.call_piece(c);
                    assert(left@ =~= calls.skip(n + 1));
                    assert(calls.take(n + 1).drop_last() =~= calls.take(n as int));
                    n += 1;
                }
                assert(calls.take(n as int) =~= calls);
            },
            None => {},
        }
        assert(self@ =~= after_delta(before, d));
        shown
    }

    /// Takes in one event and gives back the texts to show.
    pub fn chunk(&mut self, c: StreamChunk) -> (shown: Vec<String>)
        requires
            reachable(chunk_deltas(c)),
        ensures
            text::views(shown@) == shown_deltas(with_usage(old(self)@, c.usage), chunk_deltas(c)),
            final(self)@ == after_deltas(with_usage(old(self)@, c.usage), chunk_deltas(c)),
    {
        let ghost ds = chunk_deltas(c);
        match c.usage {
            Some(u) => {
                self.input_tokens = match u.prompt_tokens {
                    Some(n) => n,
                    None => 0,
                };
                self.output_tokens = match u.completion_tokens {
                    Some(n) => n,
                    None => 0,
                };
            },
            None => {},
        }
        let ghost start = with_usage(old(self)@, c.usage);
        assert(self@ =~= start);
        let mut shown: Vec<String> = Vec::new();
        proof {
            text::views_empty();
        }
        match c.choices {
            Some(v) => {
                let ghost cs = v@;
                let mut left = v;
                let total: usize = left.len();
                let mut n: usize = 0;
                assert(cs.take(0) =~= Seq::<StreamChoice>::empty());
                while left.len() > 0
                    invariant
                        n + left.len() == cs.len(),
                        total == cs.len(),
                        left@ == cs.skip(n as int),
                        ds == choice_deltas(cs),
                        reachable(ds),
                        self@ == after_deltas(start, choice_deltas(cs.take(n as int))),
                        text::views(shown@) == shown_deltas(start, choice_deltas(cs.take(n as int))),
                    decreases left.len(),
                {
                    let ch = left.remove(0);
                    let ghost so_far = choice_deltas(cs.take(n as int));
                    proof {
                        assert(ch == cs[n as int]);
                        assert(cs.take(n + 1).drop_last() =~= cs.take(n as int));
                        assert(left@ =~= cs.skip(n + 1));
                        deltas_prefix(cs, n + 1);
                    }
                    match ch.delta {
                        Some(d) => {
                            let ghost upto = choice_deltas(cs.take(n + 1));
                            proof {
                                assert(upto.last() == d);
                                assert(upto.drop_last() =~= so_far);
                                assert(ds[so_far.len() as int] == d);
                                assert(seq![d][0] == ds[so_far.len() as int]);
                            }
                            let ghost shown0 = text::views(shown@);
                            let mut more = self.delta(d);
                            let ghost m = more@;
                            shown.append(&mut more);
                            assert(text::views(shown@) =~= shown0 + text::views(m));
                        },
                        None => {},
                    }
                    n += 1;
                }
                assert(cs.take(n as int) =~= cs);
            },
            None => {},
        }
        shown
    }

    /// Ends the answer: what is still to be shown, and the answer itself.
    pub fn finish(self) -> (r: (Vec<String>, ModelResponse))
        ensures
            text::views(r.0@) == (if self@.open {
                seq!["</think>"@]
            } else {
                Seq::<Seq<char>>::empty()
            }),
            r.1.text@ == answer_text(self@),
            call_views(r.1.tool_calls@) == named_calls(self@.pending),
            r.1.input_tokens == self.input_tokens,
            r.1.output_tokens == self.output_tokens,
    {
        let mut shown: Vec<String> = Vec::new();
        proof {
            text::views_empty();
        }
        if self.reasoning_open {
            shown.push("</think>".to_owned());
        }
        assert(text::views(shown@) =~= if self@.open {
            seq!["</think>"@]
        } else {
            Seq::<Seq<char>>::empty()
        });
        let mut calls: Vec<ToolCall> = Vec::new();
        let mut i: usize = 0;
        let ghost p = self@.pending;
        assert(p.take(0) =~= Seq::<ToolCallView>::empty());
        assert(call_views(calls@) =~= Seq::<ToolCallView>::empty());
        while i < self.pending.len()
            invariant
                i <= self.pending.len(),
                p == pending_views(self.pending@),
                call_views(calls@) == named_calls(p.take(i as int)),
            decreases self.pending.len() - i,
        {
            let c = &self.pending[i];
            proof {
                assert(p.take(i + 1).drop_last() =~= p.take(i as int));
                assert(p.take(i + 1).last() == c@);
            }
            if !c.name.as_str().is_empty() {
                let ghost before = call_views(calls@);
                let call = ToolCall {
                    id: c.id.clone(),
                    name: c.name.clone(),
                    arguments: c.arguments.clone(),
                };
                calls.push(call);
                assert(call_views(calls@) =~= before.push(c@));
            }
            i += 1;
        }
        assert(p.take(i as int) =~= p);
        let final_text = if self.text.as_str().is_empty() && !self.reasoning.as_str().is_empty() {
            self.reasoning
        } else {
            self.text
        };
        let resp = ModelResponse {
            text: final_text,
            tool_calls: calls,
            input_tokens: self.input_tokens,
            output_tokens: self.output_tokens,
        };
        (shown, resp)
    }
}

proof fn deltas_prefix(cs: Seq<StreamChoice>, n: int)
    requires
        0 <= n <= cs.len(),
    ensures
        choice_deltas(cs.take(n)).len() <= choice_deltas(cs).len(),
        forall|i: int|
            0 <= i < choice_deltas(cs.take(n)).len() ==> #[trigger] choice_deltas(cs)[i]
                == choice_deltas(cs.take(n))[i],
    decreases cs.len(),
{
    if n == cs.len() {
        assert(cs.take(n) =~= cs);
    } else {
        deltas_prefix(cs.drop_last(), n);
        assert(cs.drop_last().take(n) =~= cs.take(n));
    }
}

// ── What every stream keeps ──────────────────────────────────────────────────

/// All the text that the deltas bring.
pub open spec fn contents(ds: Seq<Delta>) -> Seq<char>
    decreases ds.len(),
{
    if ds.len() == 0 {
        Seq::empty()
    } else {
        contents(ds.drop_last()) + match ds.last().content {
            Some(c) => c@,
            None => Seq::empty(),
        }
    }
}

/// All the thinking that the deltas bring.
pub open spec fn thoughts(ds: Seq<Delta>) -> Seq<char>
    decreases ds.len(),
{
    if ds.len() == 0 {
        Seq::empty()
    } else {
        thoughts(ds.drop_last()) + match (ds.last().reasoning_content, ds.last().reasoning) {
            (Some(t), _) => t@,
            (None, Some(t)) => t@,
            (None, None) => Seq::empty(),
        }
    }
}

/// Nothing the model sends is lost or reordered: the text and the thinking
/// of a stream are those of its deltas, one after the other.
pub proof fn stream_keeps_text(ds: Seq<Delta>)
    ensures
        after_deltas(empty_stream(), ds).text == contents(ds),
        after_deltas(empty_stream(), ds).reasoning == thoughts(ds),
    decreases ds.len(),
{
    if ds.len() > 0 {
        stream_keeps_text(ds.drop_last());
    }
}

/// All the pieces of calls that the deltas bring.
pub open spec fn call_pieces(ds: Seq<Delta>) -> Seq<ToolCallDelta>
    decreases ds.len(),
{
    if ds.len() == 0 {
        Seq::empty()
    } else {
        call_pieces(ds.drop_last()) + match ds.last().tool_calls {
            Some(v) => v@,
            None => Seq::empty(),
        }
    }
}

/// All that the pieces for call `i` say of its name, one behind the other.
pub open spec fn whole_name(cs: Seq<ToolCallDelta>, i: int) -> Seq<char>
    decreases cs.len(),
{
    if cs.len() == 0 {
        Seq::empty()
    } else {
        whole_name(cs.drop_last(), i) + match cs.last().function {
            Some(f) => if cs.last().index == i && f.name is Some {
                f.name->0@
            } else {
                Seq::empty()
            },
            None => Seq::empty(),
        }
    }
}

/// All that the pieces for call `i` say of its arguments, one behind the
/// other.
pub open spec fn whole_arguments(cs: Seq<ToolCallDelta>, i: int) -> Seq<char>
    decreases cs.len(),
{
    if cs.len() == 0 {
        Seq::empty()
    } else {
        whole_arguments(cs.drop_last(), i) + match cs.last().function {
            Some(f) => if cs.last().index == i && f.arguments is Some {
                f.arguments->0@
            } else {
                Seq::empty()
            },
            None => Seq::empty(),
        }
    }
}

/// The last id that the pieces give call `i`.
pub open spec fn last_id(cs: Seq<ToolCallDelta>, i: int) -> Seq<char>
    decreases cs.len(),
{
    if cs.len() == 0 {
        Seq::empty()
    } else if cs.last().index == i && cs.last().id is Some {
        cs.last().id->0@
    } else {
        last_id(cs.drop_last(), i)
    }
}

/// Whether pending calls are what the pieces make: one for each position up
/// to the highest that a piece has, each with all that its pieces say.
pub open spec fn put_together(p: Seq<ToolCallView>, cs: Seq<ToolCallDelta>) -> bool {
    &&& forall|k: int| 0 <= k < cs.len() ==> (#[trigger] cs[k]).index < p.len()
    &&& p.len() > 0 ==> exists|k: int| 0 <= k < cs.len() && (#[trigger] cs[k]).index == p.len() - 1
    &&& forall|i: int|
        0 <= i < p.len() ==> (#[trigger] p[i]).name == whole_name(cs, i) && p[i].arguments
            == whole_arguments(cs, i) && p[i].id == last_id(cs, i)
}

proof fn nothing_beyond(cs: Seq<ToolCallDelta>, i: int)
    requires
        forall|k: int| 0 <= k < cs.len() ==> (#[trigger] cs[k]).index < i,
    ensures
        whole_name(cs, i) == Seq::<char>::empty(),
        whole_arguments(cs, i) == Seq::<char>::empty(),
        last_id(cs, i) == Seq::<char>::empty(),
    decreases cs.len(),
{
    if cs.len() > 0 {
        assert(cs.last() == cs[cs.len() - 1]);
        assert forall|k: int| 0 <= k < cs.drop_last().len() implies (
        #[trigger] cs.drop_last()[k]).index < i by {
            assert(cs.drop_last()[k] == cs[k]);
        }
        nothing_beyond(cs.drop_last(), i);
    }
}

proof fn piece_put(p: Seq<ToolCallView>, cs: Seq<ToolCallDelta>, d: ToolCallDelta)
    requires
        put_together(p, cs),
    ensures
        put_together(pending_after(p, d), cs.push(d)),
{
    let all = cs.push(d);
    let q = pending_after(p, d);
    assert(all.drop_last() =~= cs);
    assert(all[cs.len() as int] == d);
    assert forall|k: int| 0 <= k < all.len() implies (#[trigger] all[k]).index < q.len() by {
        if k < cs.len() {
            assert(all[k] == cs[k]);
        }
    }
    assert(exists|k: int| 0 <= k < all.len() && (#[trigger] all[k]).index == q.len() - 1) by {
        if p.len() <= d.index {
            assert(all[cs.len() as int].index == q.len() - 1);
        } else {
            let k = choose|k: int| 0 <= k < cs.len() && (#[trigger] cs[k]).index == p.len() - 1;
            assert(all[k] == cs[k]);
        }
    }
    assert forall|i: int| 0 <= i < q.len() implies (#[trigger] q[i]).name == whole_name(all, i)
        && q[i].arguments == whole_arguments(all, i) && q[i].id == last_id(all, i) by {
        if i >= p.len() {
            assert forall|k: int| 0 <= k < cs.len() implies (#[trigger] cs[k]).index < i by {}
            nothing_beyond(cs, i);
        } else {
            assert(p[i].name == whole_name(cs, i));
        }
        if i != d.index {
            assert(whole_name(all, i) =~= whole_name(cs, i));
            assert(whole_arguments(all, i) =~= whole_arguments(cs, i));
        } else {
            assert(q[i].name =~= whole_name(all, i));
            assert(q[i].arguments =~= whole_arguments(all, i));
        }
    }
}

proof fn pieces_put(p: Seq<ToolCallView>, cs: Seq<ToolCallDelta>, ds: Seq<ToolCallDelta>)
    requires
        put_together(p, cs),
    ensures
        put_together(pending_after_all(p, ds), cs + ds),
    decreases ds.len(),
{
    if ds.len() == 0 {
        assert(cs + ds =~= cs);
    } else {
        pieces_put(p, cs, ds.drop_last());
        piece_put(pending_after_all(p, ds.drop_last()), cs + ds.drop_last(), ds.last());
        assert((cs + ds.drop_last()).push(ds.last()) =~= cs + ds);
    }
}

/// No piece of a call is lost or reordered: the calls of a stream have the
/// names and the arguments that its deltas bring for them, one piece behind
/// the other, and the last id given.
pub proof fn stream_keeps_calls(ds: Seq<Delta>)
    ensures
        put_together(after_deltas(empty_stream(), ds).pending, call_pieces(ds)),
    decreases ds.len(),
{
    if ds.len() > 0 {
        stream_keeps_calls(ds.drop_last());
        let more = match ds.last().tool_calls {
            Some(v) => v@,
            None => Seq::empty(),
        };
        pieces_put(
            after_deltas(empty_stream(), ds.drop_last()).pending,
            call_pieces(ds.drop_last()),
            more,
        );
    }
}

/// The calls of an answer are the pending ones that have a name, and its text
/// is what was said, or what was thought where nothing was said.
pub proof fn answer_is_what_came(s: StreamView)
    ensures
        named_calls(s.pending) == s.pending.filter(|c: ToolCallView| c.name != Seq::<char>::empty()),
        s.text != Seq::<char>::empty() ==> answer_text(s) == s.text,
        s.text == Seq::<char>::empty() ==> answer_text(s) == s.reasoning,
{
    named_is_filter(s.pending);
    if s.text.len() == 0 {
        assert(s.text =~= Seq::<char>::empty());
        if s.reasoning.len() == 0 {
            assert(s.reasoning =~= s.text);
        }
    }
}

proof fn named_is_filter(p: Seq<ToolCallView>)
    ensures
        named_calls(p) == p.filter(|c: ToolCallView| c.name != Seq::<char>::empty()),
    decreases p.len(),
{
    reveal(Seq::filter);
    if p.len() > 0 {
        named_is_filter(p.drop_last());
        if p.last().name.len() == 0 {
            assert(p.last().name =~= Seq::<char>::empty());
        }
    }
}

/// Texts one behind the other.
pub open spec fn run_on(ts: Seq<Seq<char>>) -> Seq<char>
    decreases ts.len(),
{
    if ts.len() == 0 {
        Seq::empty()
    } else {
        run_on(ts.drop_last()) + ts.last()
    }
}

proof fn run_on_adds(a: Seq<Seq<char>>, b: Seq<Seq<char>>)
    ensures
        run_on(a + b) == run_on(a) + run_on(b),
    decreases b.len(),
{
    if b.len() == 0 {
        assert(a + b =~= a);
        assert(run_on(a) + run_on(b) =~= run_on(a));
    } else {
        run_on_adds(a, b.drop_last());
        assert((a + b).drop_last() =~= a + b.drop_last());
        assert(run_on(a + b) =~= run_on(a) + run_on(b));
    }
}

/// Whether a delta brings text and no thinking.
pub open spec fn only_says(d: Delta) -> bool {
    d.reasoning_content is None && d.reasoning is None && d.content is Some && d.content->0@.len() > 0
}

/// Whether a delta brings thinking and no text.
pub open spec fn only_thinks(d: Delta) -> bool {
    d.content is None && match (d.reasoning_content, d.reasoning) {
        (Some(t), _) => t@.len() > 0,
        (None, Some(t)) => t@.len() > 0,
        (None, None) => false,
    }
}

proof fn thinking_is_shown(ds: Seq<Delta>)
    requires
        forall|k: int| 0 <= k < ds.len() ==> only_thinks(#[trigger] ds[k]),
    ensures
        run_on(shown_deltas(empty_stream(), ds)) == (if ds.len() > 0 {
            "<think>"@ + thoughts(ds)
        } else {
            Seq::empty()
        }),
        after_deltas(empty_stream(), ds).open == (ds.len() > 0),
        contents(ds) == Seq::<char>::empty(),
    decreases ds.len(),
{
    reveal_with_fuel(run_on, 3);
    if ds.len() > 0 {
        let t = ds.drop_last();
        assert forall|k: int| 0 <= k < t.len() implies only_thinks(#[trigger] t[k]) by {
            assert(t[k] == ds[k]);
        }
        thinking_is_shown(t);
        let d = ds.last();
        assert(d == ds[ds.len() - 1]);
        let open = after_deltas(empty_stream(), t).open;
        let now = shown_delta(open, d);
        run_on_adds(shown_deltas(empty_stream(), t), now);
        let said = thought(d)->0;
        if open {
            assert(now =~= seq![said]);
            assert(seq![said].drop_last() =~= Seq::<Seq<char>>::empty());
        } else {
            assert(now =~= seq!["<think>"@, said]);
            assert(seq!["<think>"@, said].drop_last() =~= seq!["<think>"@]);
            assert(seq!["<think>"@].drop_last() =~= Seq::<Seq<char>>::empty());
            assert(t.len() == 0);
            assert(thoughts(t) =~= Seq::<char>::empty());
        }
        assert(run_on(shown_deltas(empty_stream(), ds)) =~= "<think>"@ + thoughts(ds));
    }
}

proof fn saying_is_shown(s: StreamView, ds: Seq<Delta>)
    requires
        forall|k: int| 0 <= k < ds.len() ==> only_says(#[trigger] ds[k]),
    ensures
        run_on(shown_deltas(s, ds)) == (if s.open && ds.len() > 0 {
            "</think>"@ + contents(ds)
        } else {
            contents(ds)
        }),
        after_deltas(s, ds).open == (s.open && ds.len() == 0),
        thoughts(ds) == Seq::<char>::empty(),
    decreases ds.len(),
{
    reveal_with_fuel(run_on, 3);
    if ds.len() > 0 {
        let t = ds.drop_last();
        assert forall|k: int| 0 <= k < t.len() implies only_says(#[trigger] t[k]) by {
            assert(t[k] == ds[k]);
        }
        saying_is_shown(s, t);
        let d = ds.last();
        assert(d == ds[ds.len() - 1]);
        let open = after_deltas(s, t).open;
        let now = shown_delta(open, d);
        run_on_adds(shown_deltas(s, t), now);
        let said = d.content->0@;
        if open {
            assert(now =~= seq!["</think>"@, said]);
            assert(seq!["</think>"@, said].drop_last() =~= seq!["</think>"@]);
            assert(seq!["</think>"@].drop_last() =~= Seq::<Seq<char>>::empty());
            assert(t.len() == 0);
            assert(contents(t) =~= Seq::<char>::empty());
        } else {
            assert(now =~= seq![said]);
            assert(seq![said].drop_last() =~= Seq::<Seq<char>>::empty());
        }
        assert(run_on(shown_deltas(s, ds)) =~= (if s.open {
            "</think>"@ + contents(ds)
        } else {
            contents(ds)
        }));
    }
}

/// What is shown of a model that thinks and then speaks is its thinking
/// between tags, and what it says behind them; of one that only speaks, what
/// it says.
pub proof fn thinking_is_tagged(thinking: Seq<Delta>, speaking: Seq<Delta>)
    requires
        forall|k: int| 0 <= k < thinking.len() ==> only_thinks(#[trigger] thinking[k]),
        forall|k: int| 0 <= k < speaking.len() ==> only_says(#[trigger] speaking[k]),
        speaking.len() > 0,
    ensures
        run_on(shown_deltas(empty_stream(), thinking + speaking)) == (if thinking.len() > 0 {
            "<think>"@ + thoughts(thinking) + "</think>"@ + contents(speaking)
        } else {
            contents(speaking)
        }),
        !after_deltas(empty_stream(), thinking + speaking).open,
{
    thinking_is_shown(thinking);
    let s = after_deltas(empty_stream(), thinking);
    saying_is_shown(s, speaking);
    stream_in_pieces(empty_stream(), thinking, speaking);
    run_on_adds(shown_deltas(empty_stream(), thinking), shown_deltas(s, speaking));
    if thinking.len() > 0 {
        assert(("<think>"@ + thoughts(thinking)) + ("</think>"@ + contents(speaking)) =~= "<think>"@
            + thoughts(thinking) + "</think>"@ + contents(speaking));
    } else {
        assert(Seq::<char>::empty() + contents(speaking) =~= contents(speaking));
    }
}

/// A line that is cut within its JSON is seen whole once its rest arrives:
/// its first part is handed out as it is, and behind it, once it was kept
/// back, the rest makes the line. White space at the cut would be lost.
pub proof fn cut_line_is_joined(first: Seq<char>, rest: Seq<char>)
    requires
        first.len() > 0,
        first != "[DONE]"@,
        !first.contains('\n'),
        !text::is_white(first.last()),
    ensures
        data_lines(pieces::lines("data: "@ + first)) == seq![first],
        data_lines(pieces::lines(("data: "@ + first) + rest)) == data_lines(
            pieces::lines("data: "@ + (first + rest)),
        ),
{
    reveal_strlit("data: ");
    reveal_strlit("data: [DONE]");
    reveal_strlit("[DONE]");
    let line = "data: "@ + first;
    assert(line + rest =~= "data: "@ + (first + rest));
    pieces::upto_bound(line, '\n');
    assert forall|i: int| 0 <= i < line.len() implies line[i] != '\n' by {
        if i >= 6 {
            assert(first[i - 6] == line[i]);
        }
    }
    assert(pieces::lines(line) =~= seq![line]);
    assert(line[0] == 'd' && !text::is_white('d'));
    assert(line.last() == first.last());
    assert(line.skip(0) =~= line && line.take(line.len() as int) =~= line);
    assert(text::trim(line) =~= line);
    if line == "data: [DONE]"@ {
        assert(first =~= line.skip(6));
        assert(first =~= "[DONE]"@);
    }
    assert(line.skip(6) =~= first);
    assert(line.take(6) =~= "data: "@);
    assert(data_of(line) == Some(first));
    assert(seq![line].drop_last() =~= Seq::<Seq<char>>::empty());
    assert(data_lines(Seq::<Seq<char>>::empty()) =~= Seq::<Seq<char>>::empty());
    assert(data_lines(seq![line]) =~= seq![first]);
}

/// How a stream is cut into events does not matter: two runs of deltas one
/// after the other leave the state, and show the texts, of one run.
pub proof fn stream_in_pieces(s: StreamView, a: Seq<Delta>, b: Seq<Delta>)
    ensures
        after_deltas(s, a + b) == after_deltas(after_deltas(s, a), b),
        shown_deltas(s, a + b) == shown_deltas(s, a) + shown_deltas(after_deltas(s, a), b),
    decreases b.len(),
{
    if b.len() == 0 {
        assert(a + b =~= a);
        assert(shown_deltas(s, a) + shown_deltas(after_deltas(s, a), b) =~= shown_deltas(s, a));
    } else {
        assert((a + b).drop_last() =~= a + b.drop_last());
        assert((a + b).last() == b.last());
        stream_in_pieces(s, a, b.drop_last());
        assert(shown_deltas(s, a + b) =~= shown_deltas(s, a) + shown_deltas(after_deltas(s, a), b));
    }
}

// ── What a request says ──────────────────────────────────────────────────────

/// The rows of a request are those of its messages, one behind the other, and
/// the system prompt stands in front of them.
pub proof fn rows_stand_in_order(
    system: Seq<char>,
    a: Seq<MessageView>,
    b: Seq<MessageView>,
    m: MessageView,
)
    ensures
        all_rows(Seq::empty()) == Seq::<JsonView>::empty(),
        all_rows(seq![m]) == message_rows(m),
        all_rows(a + b) == all_rows(a) + all_rows(b),
        system.len() == 0 ==> request_rows(system, a) == all_rows(a),
        system.len() > 0 ==> request_rows(system, a).len() == all_rows(a).len() + 1 && request_rows(
            system,
            a,
        )[0].at("role"@) == JsonView::Text("system"@) && request_rows(system, a)[0].at("content"@)
            == JsonView::Text(system) && request_rows(system, a).skip(1) == all_rows(a),
    decreases b.len(),
{
    reveal_with_fuel(all_rows, 2);
    assert(seq![m].drop_last() =~= Seq::empty());
    assert(all_rows(seq![m]) =~= message_rows(m));
    two_members(
        "role"@,
        JsonView::Text("system"@),
        "content"@,
        JsonView::Text(system),
    );
    assert(Seq::<JsonView>::empty() + all_rows(a) =~= all_rows(a));
    if system.len() > 0 {
        assert(request_rows(system, a).skip(1) =~= all_rows(a));
    }
    if b.len() == 0 {
        assert(a + b =~= a);
        assert(all_rows(a) + all_rows(b) =~= all_rows(a));
    } else {
        rows_stand_in_order(system, a, b.drop_last(), m);
        assert((a + b).drop_last() =~= a + b.drop_last());
        assert(all_rows(a + b) =~= all_rows(a) + all_rows(b));
    }
}

proof fn two_members(k1: Seq<char>, v1: JsonView, k2: Seq<char>, v2: JsonView)
    requires
        k1 == "role"@ && k2 == "content"@ || k1 != k2,
    ensures
        pair(k1, v1, k2, v2).at(k1) == v1,
        pair(k1, v1, k2, v2).at(k2) == v2,
{
    reveal_strlit("role");
    reveal_strlit("content");
    assert("role"@.len() != "content"@.len());
    let m = seq![(k1, v1), (k2, v2)];
    json::first_member_counts(m, k1, 0);
    json::first_member_counts(m, k2, 1);
}

proof fn three_members(
    k1: Seq<char>,
    v1: JsonView,
    k2: Seq<char>,
    v2: JsonView,
    k3: Seq<char>,
    v3: JsonView,
)
    requires
        k1 != k2,
        k1 != k3,
        k2 != k3,
    ensures
        triple(k1, v1, k2, v2, k3, v3).at(k1) == v1,
        triple(k1, v1, k2, v2, k3, v3).at(k2) == v2,
        triple(k1, v1, k2, v2, k3, v3).at(k3) == v3,
{
    let m = seq![(k1, v1), (k2, v2), (k3, v3)];
    json::first_member_counts(m, k1, 0);
    json::first_member_counts(m, k2, 1);
    json::first_member_counts(m, k3, 2);
}

proof fn keys_differ()
    ensures
        "role"@.len() == 4,
        "content"@.len() == 7,
        "tool_call_id"@.len() == 12,
        "tool_calls"@.len() == 10,
        "id"@.len() == 2,
        "type"@.len() == 4,
        "function"@.len() == 8,
        "name"@.len() == 4,
        "arguments"@.len() == 9,
        "description"@.len() == 11,
        "parameters"@.len() == 10,
        "model"@.len() == 5,
        "stream"@.len() == 6,
        "stream_options"@.len() == 14,
        "messages"@.len() == 8,
        "tools"@[0] == 't' && "model"@[0] == 'm',
        "tools"@.len() == 5,
        "tool_choice"@.len() == 11,
{
    reveal_strlit("role");
    reveal_strlit("content");
    reveal_strlit("tool_call_id");
    reveal_strlit("tool_calls");
    reveal_strlit("id");
    reveal_strlit("type");
    reveal_strlit("function");
    reveal_strlit("name");
    reveal_strlit("arguments");
    reveal_strlit("description");
    reveal_strlit("parameters");
    reveal_strlit("model");
    reveal_strlit("stream");
    reveal_strlit("stream_options");
    reveal_strlit("messages");
    reveal_strlit("tools");
    reveal_strlit("tool_choice");
}

/// A message of text is a row with its role and its text, and with its calls
/// where it has some; each result of a tool is a row of its own that names the
/// call it answers.
pub proof fn messages_keep_what_they_say(m: MessageView, t: Seq<char>, i: int, id: Seq<char>)
    ensures
        m.content == ContentView::Text(t) ==> {
            let rows = message_rows(m);
            &&& rows.len() == 1
            &&& rows[0].at("role"@) == JsonView::Text(m.role)
            &&& rows[0].at("content"@) == JsonView::Text(t)
            &&& 0 <= i < m.tool_calls.len() ==> (rows[0].at("tool_calls"@) matches JsonView::List(cs)
                && cs.len() == m.tool_calls.len() && cs[i].at("id"@) == JsonView::Text(
                m.tool_calls[i].id,
            ) && cs[i].at("function"@).at("name"@) == JsonView::Text(m.tool_calls[i].name) && cs[i].at(
                "function"@,
            ).at("arguments"@) == JsonView::Text(m.tool_calls[i].arguments))
        },
        m.content matches ContentView::Parts(ps) ==> message_rows(m).len() == ps.len() && (0 <= i
            < ps.len() && ps[i] == PartView::ToolResult(id, t) ==> message_rows(m)[i].at("role"@)
            == JsonView::Text("tool"@) && message_rows(m)[i].at("tool_call_id"@) == JsonView::Text(id)
            && message_rows(m)[i].at("content"@) == JsonView::Text(t)) && (0 <= i < ps.len() && ps[i]
            == PartView::Text(t) ==> message_rows(m)[i].at("role"@) == JsonView::Text(m.role)
            && message_rows(m)[i].at("content"@) == JsonView::Text(t)),
{
    keys_differ();
    two_members("role"@, JsonView::Text(m.role), "content"@, JsonView::Text(t));
    let calls = Seq::new(m.tool_calls.len(), |k: int| call_row(m.tool_calls[k]));
    three_members(
        "role"@,
        JsonView::Text(m.role),
        "content"@,
        JsonView::Text(t),
        "tool_calls"@,
        JsonView::List(calls),
    );
    three_members(
        "role"@,
        JsonView::Text("tool"@),
        "tool_call_id"@,
        JsonView::Text(id),
        "content"@,
        JsonView::Text(t),
    );
    if 0 <= i < m.tool_calls.len() {
        let c = m.tool_calls[i];
        let f = pair("name"@, JsonView::Text(c.name), "arguments"@, JsonView::Text(c.arguments));
        two_members("name"@, JsonView::Text(c.name), "arguments"@, JsonView::Text(c.arguments));
        three_members(
            "id"@,
            JsonView::Text(c.id),
            "type"@,
            JsonView::Text("function"@),
            "function"@,
            f,
        );
        assert(calls[i] == call_row(c));
    }
}

/// A request names the model, streams, and holds the rows; it offers tools if
/// and only if there are some, each under its name.
pub proof fn request_says_what_is_asked(
    model: Seq<char>,
    system: Seq<char>,
    ms: Seq<MessageView>,
    tools: Seq<Tool>,
    i: int,
)
    ensures
        ({
            let r = request_body(model, system, ms, tools);
            &&& r.at("model"@) == JsonView::Text(model)
            &&& r.at("stream"@) == JsonView::Bool(true)
            &&& r.at("messages"@) == JsonView::List(request_rows(system, ms))
            &&& tools.len() == 0 ==> r.at("tools"@) == JsonView::Null && r.at("tool_choice"@)
                == JsonView::Null
            &&& tools.len() > 0 ==> r.at("tool_choice"@) == JsonView::Text("auto"@)
            &&& 0 <= i < tools.len() ==> (r.at("tools"@) matches JsonView::List(ts) && ts.len()
                == tools.len() && ts[i].at("function"@).at("name"@) == JsonView::Text(tools[i].name@)
                && ts[i].at("function"@).at("description"@) == JsonView::Text(tools[i].description@)
                && ts[i].at("function"@).at("parameters"@) == tools[i].parameters@)
        }),
{
    keys_differ();
    reveal_strlit("include_usage");
    let r = request_body(model, system, ms, tools);
    if let JsonView::Object(m) = r {
        json::first_member_counts(m, "model"@, 0);
        json::first_member_counts(m, "stream"@, 1);
        json::first_member_counts(m, "messages"@, 3);
        json::first_member_counts(m, "tools"@, 4);
        if tools.len() == 0 {
            json::first_member_counts(m, "tool_choice"@, 4);
        } else {
            json::first_member_counts(m, "tool_choice"@, 5);
        }
    }
    if 0 <= i < tools.len() {
        let t = tools[i];
        let f = triple(
            "name"@,
            JsonView::Text(t.name@),
            "description"@,
            JsonView::Text(t.description@),
            "parameters"@,
            t.parameters@,
        );
        three_members(
            "name"@,
            JsonView::Text(t.name@),
            "description"@,
            JsonView::Text(t.description@),
            "parameters"@,
            t.parameters@,
        );
        two_members("type"@, JsonView::Text("function"@), "function"@, f);
    }
}

/// A line of the stream tells what stands behind its mark; blank lines, the
/// mark of the end and other lines tell nothing.
pub proof fn marked_lines_tell(ls: Seq<Seq<char>>, d: Seq<char>)
    requires
        d.len() > 0,
        !text::is_white(d.last()),
        d != "[DONE]"@,
    ensures
        data_of("data: "@ + d) == Some(d),
        data_of("data: [DONE]"@) is None,
        data_of(Seq::empty()) is None,
        data_lines(ls) == ls.map_values(|l: Seq<char>| data_of(l)).filter(
            |x: Option<Seq<char>>| x is Some,
        ).map_values(|x: Option<Seq<char>>| x->0),
    decreases ls.len(),
{
    reveal(Seq::filter);
    reveal_strlit("data: ");
    reveal_strlit("data: [DONE]");
    reveal_strlit("[DONE]");
    let s = "data: "@ + d;
    text::lead_bound(s, text::CharSet::White, true);
    assert(s[0] == 'd');
    assert(text::lead(s, text::CharSet::White, true) == 0);
    assert(s.skip(0) =~= s);
    assert(s.last() == d.last());
    assert(s.take(s.len() as int) =~= s);
    assert(text::trim(s) == s);
    if s == "data: [DONE]"@ {
        assert(d =~= s.skip(6));
        assert("data: [DONE]"@.skip(6) =~= "[DONE]"@);
    }
    assert(s.subrange(0, 6) =~= "data: "@);
    assert(s.skip(6) =~= d);
    let e = "data: [DONE]"@;
    text::lead_bound(e, text::CharSet::White, true);
    assert(e[0] == 'd' && e.last() == ']');
    assert(text::lead(e, text::CharSet::White, true) == 0);
    assert(e.skip(0) =~= e);
    assert(e.take(e.len() as int) =~= e);
    let none = Seq::<char>::empty();
    assert(none.skip(0) =~= none);
    assert(text::trim(none) =~= none);
    let f = |l: Seq<char>| data_of(l);
    let some = |x: Option<Seq<char>>| x is Some;
    let got = |x: Option<Seq<char>>| x->0;
    if ls.len() > 0 {
        let t = ls.drop_last();
        marked_lines_tell(t, d);
        assert(ls.map_values(f).drop_last() =~= t.map_values(f));
        let a = t.map_values(f).filter(some);
        let x = f(ls.last());
        assert(a.push(x).map_values(got) =~= a.map_values(got).push(got(x)));
    } else {
        assert(ls.map_values(f) =~= Seq::empty());
        assert(ls.map_values(f).filter(some).map_values(got) =~= Seq::empty());
    }
}

/// The choices of a piece give what they hold, in their order, and the counts
/// of tokens are those that came last.
pub proof fn choices_and_usage_count(cs: Seq<StreamChoice>, s: StreamView, u: UsageStats)
    ensures
        choice_deltas(cs) == cs.filter(|c: StreamChoice| c.delta is Some).map_values(
            |c: StreamChoice| c.delta->0,
        ),
        with_usage(s, None) == s,
        u.prompt_tokens matches Some(n) ==> with_usage(s, Some(u)).input_tokens == n,
        u.completion_tokens matches Some(n) ==> with_usage(s, Some(u)).output_tokens == n,
        with_usage(s, Some(u)).text == s.text,
        with_usage(s, Some(u)).pending == s.pending,
    decreases cs.len(),
{
    reveal(Seq::filter);
    let some = |c: StreamChoice| c.delta is Some;
    let got = |c: StreamChoice| c.delta->0;
    if cs.len() > 0 {
        let t = cs.drop_last();
        choices_and_usage_count(t, s, u);
        assert(t.filter(some).push(cs.last()).map_values(got) =~= t.filter(some).map_values(got).push(
            got(cs.last()),
        ));
    } else {
        assert(cs.filter(some).map_values(got) =~= Seq::empty());
    }
}

} // verus!
