//! Tool servers: what is sent to them, and what their answers mean.

use crate::client;
use crate::client::{object1, object2, object3, text_json};
use crate::json;
use crate::json::{print_json, print_json_pretty, Json, JsonView};
use crate::number;
use crate::number::{decimal_of, parse_digits};
use crate::pieces;
use crate::pieces::split_first;
use crate::text;
use crate::text::same;
use vstd::prelude::*;

verus! {

/// A tool that a server offers.
#[derive(Debug)]
pub struct McpTool {
    /// The server's name, a dot, and the tool's name.
    pub qualified_name: String,
    pub tool_name: String,
    pub description: String,
    pub input_schema: Json,
    pub server_name: String,
}

/// What an `McpTool` says.
#[verifier::ext_equal]
pub struct McpToolView {
    pub qualified_name: Seq<char>,
    pub tool_name: Seq<char>,
    pub description: Seq<char>,
    pub input_schema: JsonView,
    pub server_name: Seq<char>,
}

impl View for McpTool {
    type V = McpToolView;

    open spec fn view(&self) -> McpToolView {
        McpToolView {
            qualified_name: self.qualified_name@,
            tool_name: self.tool_name@,
            description: self.description@,
            input_schema: self.input_schema@,
            server_name: self.server_name@,
        }
    }
}

pub open spec fn tool_views(v: Seq<McpTool>) -> Seq<McpToolView> {
    Seq::new(v.len(), |i: int| v[i]@)
}

impl Clone for McpTool {
    fn clone(&self) -> (r: Self)
        ensures
            r@ == self@,
    {
        McpTool {
            qualified_name: self.qualified_name.clone(),
            tool_name: self.tool_name.clone(),
            description: self.description.clone(),
            input_schema: self.input_schema.clone(),
            server_name: self.server_name.clone(),
        }
    }
}

// ── Requests ─────────────────────────────────────────────────────────────────

pub open spec fn opt_json(o: Option<Json>) -> Option<JsonView> {
    match o {
        Some(j) => Some(j@),
        None => None,
    }
}

/// The line that sends a request, numbered.
pub open spec fn request(id: u64, method: Seq<char>, params: Option<JsonView>) -> Seq<char> {
    "{\"jsonrpc\":\"2.0\",\"id\":"@ + number::decimal(id as nat) + ",\"method\":"@ + json::json_print(
        JsonView::Text(method),
    ) + (match params {
        Some(p) => ",\"params\":"@ + json::json_print(p),
        None => Seq::empty(),
    }) + "}\n"@
}

/// The line that sends a request.
pub fn request_line(id: u64, method: &str, params: Option<Json>) -> (r: String)
    ensures
        r@ == request(id, method@, opt_json(params)),
{
    let ghost goal = request(id, method@, opt_json(params));
    let mut s = "{\"jsonrpc\":\"2.0\",\"id\":".to_owned();
    s.append(decimal_of(id).as_str());
    s.append(",\"method\":");
    s.append(print_json(&text_json(method)).as_str());
    match &params {
        Some(p) => {
            s.append(",\"params\":");
            s.append(print_json(p).as_str());
        },
        None => {},
    }
    s.append("}\n");
    assert(s@ =~= goal);
    s
}

/// What a server is told first.
pub fn initialize_params() -> (r: Json)
    ensures
        r@ == client::triple(
            "protocolVersion"@,
            JsonView::Text("2024-11-05"@),
            "capabilities"@,
            JsonView::Object(seq![("tools"@, JsonView::Object(Seq::empty()))]),
            "clientInfo"@,
            client::pair("name"@, JsonView::Text("parecode"@), "version"@, JsonView::Text("0.1.0"@)),
        ),
{
    let none = Json::Object(Vec::new());
    assert(none@->Object_0 =~= Seq::<(Seq<char>, JsonView)>::empty());
    let caps = object1("tools", none);
    let info = object2("name", text_json("parecode"), "version", text_json("0.1.0"));
    object3("protocolVersion", text_json("2024-11-05"), "capabilities", caps, "clientInfo", info)
}

/// The line that ends the handshake; no answer follows it.
pub fn initialized_line() -> (r: &'static str)
    ensures
        r@ == "{\"jsonrpc\":\"2.0\",\"method\":\"notifications/initialized\"}\n"@,
{
    "{\"jsonrpc\":\"2.0\",\"method\":\"notifications/initialized\"}\n"
}

/// What is sent to call a tool.
pub fn call_params(tool_name: &str, arguments: Json) -> (r: Json)
    ensures
        r@ == client::pair("name"@, JsonView::Text(tool_name@), "arguments"@, arguments@),
{
    object2("name", text_json(tool_name), "arguments", arguments)
}

/// The server and the tool of a qualified name, or why there are none.
pub fn split_name(qualified_name: &str) -> (r: Result<(String, String), String>)
    ensures
        match r {
            Ok((s, t)) => pieces::split_once(qualified_name@, "."@) == Some((s@, t@)),
            Err(e) => pieces::split_once(qualified_name@, "."@) is None && e@
                == "Invalid MCP tool name: "@ + qualified_name@,
        },
{
    match split_first(qualified_name, ".") {
        Some((s, t)) => Ok((s, t)),
        None => {
            let mut e = "Invalid MCP tool name: ".to_owned();
            e.append(qualified_name);
            Err(e)
        },
    }
}

// ── Answers ──────────────────────────────────────────────────────────────────

/// An answer as a server sends it.
#[derive(Debug)]
pub struct Response {
    pub id: Option<Json>,
    pub result: Option<Json>,
    pub error: Option<String>,
}

/// What a line from a server means.
#[derive(Debug)]
pub enum Reply {
    /// Nothing for us: read on.
    Skip,
    Failed(String),
    Got(Json),
}

/// The number of the request that an answer belongs to; one that names none
/// has the largest.
pub open spec fn answer_id(r: Response) -> u64 {
    match r.id {
        Some(Json::Number(n)) => match number::unsigned(n@) {
            Some(k) => k,
            None => u64::MAX,
        },
        _ => u64::MAX,
    }
}

/// Whether `reply` is what an answer means for request `id`.
pub open spec fn means(server: Seq<char>, id: u64, r: Response, reply: Reply) -> bool {
    if answer_id(r) != id {
        reply is Skip
    } else if r.error is Some {
        reply matches Reply::Failed(e) && e@ == "MCP error from '"@ + server + "': "@ + r.error->0@
    } else if r.result is Some {
        reply matches Reply::Got(j) && j == r.result->0
    } else {
        reply matches Reply::Failed(e) && e@ == "MCP response had no result"@
    }
}

/// What an answer means for request `id`.
pub fn reply_to(server: &str, id: u64, r: Response) -> (reply: Reply)
    ensures
        means(server@, id, r, reply),
{
    let got: u64 = match &r.id {
        Some(Json::Number(n)) => match parse_digits(n.as_str()) {
            Some(k) => k,
            None => u64::MAX,
        },
        _ => u64::MAX,
    };
    if got != id {
        return Reply::Skip;
    }
    match r.error {
        Some(m) => {
            let mut e = "MCP error from '".to_owned();
            e.append(server);
            e.append("': ");
            e.append(m.as_str());
            Reply::Failed(e)
        },
        None => match r.result {
            Some(j) => Reply::Got(j),
            None => Reply::Failed("MCP response had no result".to_owned()),
        },
    }
}

/// The text of an answer's parts, so far: texts on lines of their own, an
/// image as a remark.
pub open spec fn parts_text(ps: Seq<JsonView>) -> Seq<char>
    decreases ps.len(),
{
    if ps.len() == 0 {
        Seq::empty()
    } else {
        let out = parts_text(ps.drop_last());
        let p = ps.last();
        if p.at("type"@).text() == Some("text"@) {
            match p.at("text"@).text() {
                Some(t) => if out.len() > 0 {
                    out + "\n"@ + t
                } else {
                    out + t
                },
                None => out,
            }
        } else if p.at("type"@).text() == Some("image"@) {
            out + "[image content not displayed]"@
        } else {
            out
        }
    }
}

/// The text of a tool's result: its parts, or all of it printed where they
/// say nothing.
pub open spec fn result_text(r: JsonView) -> Seq<char> {
    match r.at("content"@).list() {
        Some(ps) => if parts_text(ps).len() > 0 {
            parts_text(ps)
        } else {
            json::json_pretty(r)
        },
        None => json::json_pretty(r),
    }
}

fn is_text(o: &Option<String>, s: &str) -> (r: bool)
    ensures
        r == (text::opt_text(*o) == Some(s@)),
{
    match o {
        Some(t) => same(t.as_str(), s),
        None => false,
    }
}

/// The text of a tool's result.
pub fn extract_text_content(result: &Json) -> (r: String)
    ensures
        r@ == result_text(result@),
{
    match result.get("content") {
        Some(Json::List(parts)) => {
            let ghost ps = result@.at("content"@)->List_0;
            let mut out = String::new();
            let mut i: usize = 0;
            assert(ps.take(0) =~= Seq::<JsonView>::empty());
            while i < parts.len()
                invariant
                    i <= parts.len(),
                    ps.len() == parts.len(),
                    forall|k: int| 0 <= k < parts.len() ==> #[trigger] ps[k] == parts@[k]@,
                    out@ == parts_text(ps.take(i as int)),
                decreases parts.len() - i,
            {
                let p = &parts[i];
                proof {
                    assert(ps.take(i + 1).drop_last() =~= ps.take(i as int));
                    assert(ps.take(i + 1).last() == ps[i as int]);
                }
                let kind = p.text_of("type");
                if is_text(&kind, "text") {
                    match p.text_of("text") {
                        Some(t) => {
                            if !out.as_str().is_empty() {
                                out.append("\n");
                            }
                            out.append(t.as_str());
                        },
                        None => {},
                    }
                } else if is_text(&kind, "image") {
                    out.append("[image content not displayed]");
                }
                i += 1;
            }
            assert(ps.take(i as int) =~= ps);
            if !out.as_str().is_empty() {
                return out;
            }
            print_json_pretty(result)
        },
        _ => print_json_pretty(result),
    }
}

/// The schema of a tool that gives none.
pub open spec fn any_object() -> JsonView {
    client::pair("type"@, JsonView::Text("object"@), "properties"@, JsonView::Object(Seq::empty()))
}

/// A tool of a server's list; one without a name is left out.
pub open spec fn tool_of(server: Seq<char>, t: JsonView) -> Option<McpToolView> {
    match t.at("name"@).text() {
        Some(name) => Some(
            McpToolView {
                qualified_name: server + "."@ + name,
                tool_name: name,
                description: match t.at("description"@).text() {
                    Some(d) => d,
                    None => Seq::empty(),
                },
                input_schema: match t {
                    JsonView::Object(m) => match json::member_at(m, "inputSchema"@) {
                        Some(s) => s,
                        None => any_object(),
                    },
                    _ => any_object(),
                },
                server_name: server,
            },
        ),
        None => None,
    }
}

pub open spec fn tools_of(server: Seq<char>, ts: Seq<JsonView>) -> Seq<McpToolView>
    decreases ts.len(),
{
    if ts.len() == 0 {
        Seq::empty()
    } else {
        match tool_of(server, ts.last()) {
            Some(t) => tools_of(server, ts.drop_last()).push(t),
            None => tools_of(server, ts.drop_last()),
        }
    }
}

fn read_tool(server: &str, t: &Json) -> (r: Option<McpTool>)
    ensures
        match r {
            Some(x) => tool_of(server@, t@) == Some(x@),
            None => tool_of(server@, t@) is None,
        },
{
    let tool_name = match t.text_of("name") {
        Some(n) => n,
        None => {
            return None;
        },
    };
    let description = match t.text_of("description") {
        Some(d) => d,
        None => String::new(),
    };
    let input_schema = match t.get("inputSchema") {
        Some(s) => s.clone(),
        None => {
            let none = Json::Object(Vec::new());
            assert(none@->Object_0 =~= Seq::<(Seq<char>, JsonView)>::empty());
            object2("type", text_json("object"), "properties", none)
        },
    };
    let mut qualified_name = server.to_owned();
    qualified_name.append(".");
    qualified_name.append(tool_name.as_str());
    Some(
        McpTool {
            qualified_name,
            tool_name,
            description,
            input_schema,
            server_name: server.to_owned(),
        },
    )
}

/// The tools of a server's list.
pub fn parse_tools(server_name: &str, result: &Json) -> (r: Vec<McpTool>)
    ensures
        tool_views(r@) == (match result@.at("tools"@).list() {
            Some(ts) => tools_of(server_name@, ts),
            None => Seq::<McpToolView>::empty(),
        }),
{
    let mut out: Vec<McpTool> = Vec::new();
    assert(tool_views(out@) =~= Seq::<McpToolView>::empty());
    match result.get("tools") {
        Some(Json::List(tools)) => {
            let ghost ts = result@.at("tools"@)->List_0;
            let mut i: usize = 0;
            assert(ts.take(0) =~= Seq::<JsonView>::empty());
            while i < tools.len()
                invariant
                    i <= tools.len(),
                    ts.len() == tools.len(),
                    forall|k: int| 0 <= k < tools.len() ==> #[trigger] ts[k] == tools@[k]@,
                    tool_views(out@) == tools_of(server_name@, ts.take(i as int)),
                decreases tools.len() - i,
            {
                proof {
                    assert(ts.take(i + 1).drop_last() =~= ts.take(i as int));
                    assert(ts.take(i + 1).last() == ts[i as int]);
                }
                match read_tool(server_name, &tools[i]) {
                    Some(t) => {
                        let ghost before = tool_views(out@);
                        out.push(t);
                        assert(tool_views(out@) =~= before.push(t@));
                    },
                    None => {},
                }
                i += 1;
            }
            assert(ts.take(i as int) =~= ts);
        },
        _ => {},
    }
    out
}

/// A tool's qualified name splits back into its server and its own name,
/// where the server's name holds no dot.
pub proof fn qualified_name_splits(server: Seq<char>, tool: Seq<char>)
    requires
        !text::contains(server, "."@),
    ensures
        pieces::split_once(server + "."@ + tool, "."@) == Some((server, tool)),
{
    reveal_strlit(".");
    pieces::split_at_sign(server, "."@, tool);
}

/// The tools of a server are those of its list that have a name, in their
/// order.
pub proof fn named_tools_are_taken(server: Seq<char>, ts: Seq<JsonView>)
    ensures
        tools_of(server, ts) == ts.map_values(|t: JsonView| tool_of(server, t)).filter(
            |t: Option<McpToolView>| t is Some,
        ).map_values(|t: Option<McpToolView>| t->0),
    decreases ts.len(),
{
    reveal(Seq::filter);
    let f = |t: JsonView| tool_of(server, t);
    let some = |t: Option<McpToolView>| t is Some;
    let got = |t: Option<McpToolView>| t->0;
    if ts.len() > 0 {
        let r = ts.drop_last();
        named_tools_are_taken(server, r);
        assert(ts.map_values(f).drop_last() =~= r.map_values(f));
        let a = r.map_values(f).filter(some);
        let x = f(ts.last());
        assert(a.push(x).map_values(got) =~= a.map_values(got).push(got(x)));
    } else {
        assert(ts.map_values(f) =~= Seq::empty());
        assert(ts.map_values(f).filter(some).map_values(got) =~= Seq::empty());
    }
}

/// A tool keeps its name, its description and its schema, and is known by the
/// server's name and its own.
pub proof fn tool_is_known_by_its_server(server: Seq<char>, t: JsonView, name: Seq<char>, d: Seq<char>)
    requires
        t.at("name"@) == JsonView::Text(name),
    ensures
        tool_of(server, t) matches Some(m) && m.tool_name == name && m.qualified_name == server + "."@
            + name && m.server_name == server && (t.at("description"@) == JsonView::Text(d)
            ==> m.description == d) && (!(t.at("description"@) is Text) ==> m.description.len() == 0) && (
        t.at("inputSchema"@) != JsonView::Null ==> m.input_schema == t.at("inputSchema"@)),
{
}

/// Texts of a result are given one behind the other, each on a line of its
/// own.
pub proof fn result_texts_are_joined(ps: Seq<JsonView>, ts: Seq<Seq<char>>)
    requires
        ps.len() == ts.len(),
        forall|i: int|
            0 <= i < ps.len() ==> (#[trigger] ps[i]).at("type"@) == JsonView::Text("text"@) && ps[i].at(
                "text"@,
            ) == JsonView::Text(ts[i]) && ts[i].len() > 0,
    ensures
        parts_text(ps) == pieces::join(ts, "\n"@),
        ps.len() > 0 ==> parts_text(ps).len() > 0,
    decreases ps.len(),
{
    if ps.len() > 0 {
        let p = ps.drop_last();
        let t = ts.drop_last();
        let n = ps.len() - 1;
        assert forall|i: int| 0 <= i < p.len() implies (#[trigger] p[i]).at("type"@) == JsonView::Text(
            "text"@,
        ) && p[i].at("text"@) == JsonView::Text(t[i]) && t[i].len() > 0 by {
            assert(p[i] == ps[i] && t[i] == ts[i]);
        }
        result_texts_are_joined(p, t);
        assert(ps[n].at("type"@) == JsonView::Text("text"@));
        assert(ts[n] == ts.last());
        if p.len() == 0 {
            assert(parts_text(p) =~= Seq::empty());
            assert(parts_text(p) + ts.last() =~= ts.last());
        }
    } else {
        assert(pieces::join(ts, "\n"@) =~= Seq::empty());
    }
}

/// An answer is known by the number of its request: what has another number,
/// or none, is passed over.
pub proof fn answers_meet_their_request(server: Seq<char>, id: u64, r: Response, reply: Reply, n: u64)
    requires
        means(server, id, r, reply),
        r.id matches Some(Json::Number(s)) && s@ == number::decimal(n as nat),
    ensures
        n != id ==> reply is Skip,
        n == id && r.error is Some ==> reply is Failed,
        n == id && r.error is None && r.result is Some ==> (reply matches Reply::Got(j) && Some(j)
            == r.result),
        n == id && r.error is None && r.result is None ==> reply is Failed,
{
    number::decimal_reads_back(n as nat);
}

/// A result is told by its texts where it has some, and else as it came.
pub proof fn results_are_told_by_their_texts(r: JsonView, ps: Seq<JsonView>)
    ensures
        r.at("content"@) == JsonView::List(ps) && parts_text(ps).len() > 0 ==> result_text(r)
            == parts_text(ps),
        r.at("content"@) == JsonView::List(ps) && parts_text(ps).len() == 0 ==> result_text(r)
            == json::json_pretty(r),
        !(r.at("content"@) is List) ==> result_text(r) == json::json_pretty(r),
{
}

} // verus!
