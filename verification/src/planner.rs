//! Making a plan: the model explores with a few tools, then answers with
//! the plan.

use crate::agent;
use crate::agent::ToolView;
use crate::client;
use crate::client::{
    clone_calls, plain_message, ContentPart, ContentView, Message, MessageContent, MessageView,
    ModelResponse, PartView, Tool, ToolCall, ToolCallView,
};
use crate::json;
use crate::json::{parse_or_null, print_json, Json, JsonView};
use crate::number;
use crate::number::{decimal_of, decimal_usize};
use crate::pieces;
use crate::pieces::first_line_of;
use crate::repair;
use crate::repair::{extract_json, sanitize_json_strings};
use crate::text;
use crate::text::{holds, same, take_chars, trimmed};
use vstd::prelude::*;

verus! {

/// What the model is told when it is to make a plan.
pub const PLANNER_PROMPT: &'static str = r#"You are PareCode, a coding assistant. Your job is to produce a structured edit plan — NOT to understand or explain the codebase.

ORIENTATION: The project index and context file symbols are pre-loaded in your context. You already have file names, cluster membership, and (for attached files) exact symbol line numbers. Use them.

TOOL ORDER — follow this sequence, never skip steps:
1. orient(query="task keywords") — ONE call returns all task-relevant structs with signatures,
   locations, and call connections in pipeline order. Use this first, always.
2. check_wiring(field="X") — REQUIRED whenever you find a field: verifies full pipeline.
   WITHOUT list = your plan steps. Call this before concluding any propagation is complete.
3. read_file(path, line_range=[N,M]) — see READ BUDGET below.

READ BUDGET — strictly enforced:
- You have at most 3 reads total. Spend them only on function bodies with imperative logic
  you must quote in a step instruction (e.g. a constructor, a renderer, an event handler).
- Struct/enum signatures from orient are authoritative — reading a struct wastes your budget.
- Do NOT re-read a range you already read. Do NOT read speculatively.
- Always provide line_range (you have line numbers from orient and known locations).
  Full-file reads are BLOCKED.

EXPLORATION RULES — STRICTLY ENFORCED:
- If a symbol is listed in "Context file symbols" above, you already have its line number — do NOT call orient for it.
- Finding a field in ONE struct is not enough — always call check_wiring to verify the full chain.
- check_wiring's WITHOUT list = your plan steps. Do not generate steps for structs already in the WITH list.
- Maximum 8 tool calls total. Stop as soon as you have file:line refs for everything the plan touches.

OUTPUT: When you have all locations, immediately output the JSON plan (no markdown fences, no prose):

{
  "steps": [
    {
      "description": "human-readable one-liner shown to user",
      "instruction": "precise instruction with EVERY file:line ref — never say 'find X' or 'locate Y'",
      "files": ["src/foo.rs", "src/bar.rs"],
      "verify": "none",
      "tool_budget": 15
    }
  ]
}

STEP RULES:
- Each step runs in TOTAL ISOLATION — the executor sees ONLY files listed in "files"
- List EVERY file the step needs to read OR modify (max 10 per step)
- Every instruction MUST contain exact file paths and line numbers
- Prefer 4–8 steps; do not split naturally-coupled changes into micro-steps
- verify: "none" | "command:CMD" | "changed:FILE" | "absent:FILE:PATTERN""#;

/// How often the model may answer.
pub const MAX_TURNS: usize = 20;

/// How many tool calls the model may make.
pub const TOOL_CAP: usize = 8;

/// How far a plan has come.
#[derive(Debug)]
pub struct PlanRun {
    pub messages: Vec<Message>,
    pub total_input: u32,
    pub total_output: u32,
    pub tool_calls: usize,
    /// Tools are no longer offered: the answer has to be the plan.
    pub output_mode: bool,
    /// How many turns have begun.
    pub turn: usize,
    /// The session, to be read while it runs.
    pub log: String,
}

/// What a `PlanRun` holds.
#[verifier::ext_equal]
pub struct RunView {
    pub messages: Seq<MessageView>,
    pub total_input: int,
    pub total_output: int,
    pub tool_calls: int,
    pub output_mode: bool,
    pub turn: int,
    pub log: Seq<char>,
}

impl View for PlanRun {
    type V = RunView;

    open spec fn view(&self) -> RunView {
        RunView {
            messages: client::message_views(self.messages@),
            total_input: self.total_input as int,
            total_output: self.total_output as int,
            tool_calls: self.tool_calls as int,
            output_mode: self.output_mode,
            turn: self.turn as int,
            log: self.log@,
        }
    }
}

/// What is to be done next.
#[derive(Debug)]
pub enum PlanNext {
    /// Begin the next turn.
    Continue,
    /// The model's answer holds a plan.
    Done(String),
    /// No plan can be had, and why.
    Failed(String),
    /// Run the tools that the model called.
    RunTools(Vec<ToolCall>),
}

pub open spec fn budget_reached() -> Seq<char> {
    "Tool budget reached (8/8). Output the JSON plan now using what you have found. Approximate locations are fine — the executor reads full context. Do NOT explore further."@
}

/// The state of a turn that begins: once the tools are used up, the model
/// is told so and gets none.
pub open spec fn turn_begun(s: RunView) -> RunView {
    let spent = s.tool_calls >= TOOL_CAP && !s.output_mode;
    let mode = s.output_mode || spent;
    RunView {
        messages: if spent {
            s.messages.push(client::text_message("user"@, budget_reached()))
        } else {
            s.messages
        },
        output_mode: mode,
        turn: s.turn + 1,
        log: s.log + "\n╔═══ TURN "@ + number::decimal((s.turn + 1) as nat) + " "@ + (if mode {
            "(output — no tools)"@
        } else {
            ""@
        }) + " ═══╗\n"@,
        ..s
    }
}

/// The state once an answer is noted.
pub open spec fn noted(s: RunView, r: ModelResponse) -> RunView {
    RunView {
        messages: s.messages.push(
            MessageView {
                role: "assistant"@,
                content: ContentView::Text(r.text@),
                tool_calls: client::call_views(r.tool_calls@),
            },
        ),
        total_input: s.total_input + r.input_tokens,
        total_output: s.total_output + r.output_tokens,
        log: s.log + r.text@,
        ..s
    }
}

/// Whether the model wrote its calls as XML.
pub open spec fn calls_in_xml(t: Seq<char>) -> bool {
    text::contains(t, "<invoke"@) && text::contains(t, "</invoke>"@)
}

pub open spec fn no_xml() -> Seq<char> {
    "Use the JSON tool_calls format — do not emit XML. Call find_symbol or read_file using the API tool_calls mechanism."@
}

/// The state behind an answer: one without tool calls either is the plan,
/// or the model is asked for it.
pub open spec fn answered(s: RunView, r: ModelResponse) -> RunView {
    let n = noted(s, r);
    if r.tool_calls@.len() > 0 {
        n
    } else if calls_in_xml(r.text@) {
        RunView { messages: n.messages.push(client::text_message("user"@, no_xml())), ..n }
    } else if repair::json_within(r.text@) is Some {
        RunView { log: n.log + "\n\n=== FINAL PLAN ===\n"@ + r.text@ + "\n"@, ..n }
    } else if s.output_mode {
        n
    } else {
        RunView {
            messages: n.messages.push(
                client::text_message(
                    "user"@,
                    "You have finished exploring. Now output the JSON plan."@,
                ),
            ),
            output_mode: true,
            ..n
        }
    }
}

/// Whether `next` is what follows the answer.
pub open spec fn follows(s: RunView, r: ModelResponse, next: PlanNext) -> bool {
    if r.tool_calls@.len() > 0 {
        next matches PlanNext::RunTools(v) && client::call_views(v@) == client::call_views(
            r.tool_calls@,
        )
    } else if calls_in_xml(r.text@) {
        next is Continue
    } else if repair::json_within(r.text@) is Some {
        next matches PlanNext::Done(t) && t@ == r.text@
    } else if s.output_mode {
        next matches PlanNext::Failed(e) && e@
            == "Plan parse error: model was asked to output JSON but did not.\n\nModel response:\n"@
            + r.text@
    } else {
        next is Continue
    }
}

/// The log of one tool call.
pub open spec fn call_log(c: ToolCallView, result: Seq<char>) -> Seq<char> {
    "\n\n◆ "@ + c.name + " "@ + args_summary(c) + "\n→ "@ + result + "\n"@
}

/// The logs of the first `n` tool calls.
pub open spec fn call_logs(cs: Seq<ToolCallView>, results: Seq<Seq<char>>, n: int) -> Seq<char>
    decreases n,
{
    if n <= 0 {
        Seq::empty()
    } else {
        call_logs(cs, results, n - 1) + call_log(cs[n - 1], results[n - 1])
    }
}

/// The message with the results: a reminder first, where there is one.
pub open spec fn results_message(
    cs: Seq<ToolCallView>,
    results: Seq<Seq<char>>,
    reminder: Seq<char>,
) -> MessageView {
    let found = Seq::new(cs.len(), |i: int| PartView::ToolResult(cs[i].id, results[i]));
    MessageView {
        role: "user"@,
        content: ContentView::Parts(
            if reminder.len() == 0 {
                found
            } else {
                seq![PartView::Text(reminder)] + found
            },
        ),
        tool_calls: Seq::empty(),
    }
}

/// The state once the tools have run.
pub open spec fn with_results(
    s: RunView,
    cs: Seq<ToolCallView>,
    results: Seq<Seq<char>>,
    reminder: Seq<char>,
) -> RunView {
    RunView {
        messages: s.messages.push(results_message(cs, results, reminder)),
        tool_calls: s.tool_calls + cs.len(),
        log: s.log + call_logs(cs, results, cs.len() as int),
        ..s
    }
}

pub open spec fn or_unknown(o: Option<Seq<char>>) -> Seq<char> {
    match o {
        Some(s) => s,
        None => "?"@,
    }
}

/// The arguments of a call in short.
pub open spec fn args_summary(c: ToolCallView) -> Seq<char> {
    let args = json::json_or_null(c.arguments);
    if c.name == "find_symbol"@ {
        or_unknown(args.at("name"@).text())
    } else if c.name == "read_file"@ {
        let path = or_unknown(args.at("path"@).text());
        match args.at("line_range"@).list() {
            Some(r) => if r.len() >= 2 {
                path + " ["@ + json::json_print(r[0]) + "–"@ + json::json_print(r[1]) + "]"@
            } else {
                path
            },
            None => path,
        }
    } else {
        text::first_chars(c.arguments, 40)
    }
}

fn known_or(o: Option<String>) -> (r: String)
    ensures
        r@ == or_unknown(text::opt_text(o)),
{
    match o {
        Some(s) => s,
        None => "?".to_owned(),
    }
}

/// The arguments of a planner's call in short.
pub fn planner_args_summary(c: &ToolCall) -> (r: String)
    ensures
        r@ == args_summary(c@),
{
    if same(c.name.as_str(), "find_symbol") {
        let args = parse_or_null(c.arguments.as_str());
        known_or(args.text_of("name"))
    } else if same(c.name.as_str(), "read_file") {
        let args = parse_or_null(c.arguments.as_str());
        let mut path = known_or(args.text_of("path"));
        match args.get("line_range") {
            Some(Json::List(v)) => {
                if v.len() >= 2 {
                    path.append(" [");
                    path.append(print_json(&v[0]).as_str());
                    path.append("–");
                    path.append(print_json(&v[1]).as_str());
                    path.append("]");
                }
            },
            _ => {},
        }
        path
    } else {
        take_chars(c.arguments.as_str(), 40)
    }
}

/// What is shown of a tool's result: the front of its first line.
pub fn result_summary(result: &str) -> (r: String)
    ensures
        r@ == text::first_chars(pieces::first_line(result@), 80),
{
    let l = first_line_of(result);
    take_chars(l.as_str(), 80)
}

/// What a planner's call asks for.
#[derive(Debug)]
pub enum PlannerTool {
    Orient,
    FindSymbol,
    TraceCalls,
    CheckWiring,
    Read,
    /// The call is answered without running anything.
    Say(String),
}

// ── Tools ────────────────────────────────────────────────────────────────────

/// The first definition of the name.
pub open spec fn defined(defs: Seq<JsonView>, name: Seq<char>) -> Option<JsonView>
    decreases defs.len(),
{
    if defs.len() == 0 {
        None
    } else if defs[0].at("name"@).text() == Some(name) {
        Some(defs[0])
    } else {
        defined(defs.skip(1), name)
    }
}

pub open spec fn or_nothing(o: Option<Seq<char>>) -> Seq<char> {
    match o {
        Some(s) => s,
        None => Seq::empty(),
    }
}

/// The tool that a definition describes.
pub open spec fn described(def: JsonView) -> ToolView {
    ToolView {
        name: or_nothing(def.at("name"@).text()),
        description: or_nothing(def.at("description"@).text()),
        parameters: def.at("parameters"@),
    }
}

/// The tools of these names that are defined, in the order of the names.
pub open spec fn picked(defs: Seq<JsonView>, names: Seq<Seq<char>>) -> Seq<ToolView>
    decreases names.len(),
{
    if names.len() == 0 {
        Seq::empty()
    } else {
        let front = picked(defs, names.drop_last());
        match defined(defs, names.last()) {
            Some(d) => front.push(described(d)),
            None => front,
        }
    }
}

/// What a planner explores with.
pub open spec fn planner_names() -> Seq<Seq<char>> {
    seq!["orient"@, "check_wiring"@, "read_file"@]
}

fn definition<'a>(defs: &'a Vec<Json>, name: &str) -> (r: Option<&'a Json>)
    ensures
        match r {
            Some(d) => defined(json::json_views(defs@), name@) == Some(d@),
            None => defined(json::json_views(defs@), name@) is None,
        },
{
    let ghost dv = json::json_views(defs@);
    let mut i: usize = 0;
    assert(dv.skip(0) =~= dv);
    while i < defs.len()
        invariant
            i <= defs.len(),
            dv == json::json_views(defs@),
            defined(dv, name@) == defined(dv.skip(i as int), name@),
        decreases defs.len() - i,
    {
        assert(dv.skip(i as int)[0] == defs@[i as int]@);
        assert(dv.skip(i as int).skip(1) =~= dv.skip(i + 1));
        if let Some(n) = defs[i].text_of("name") {
            if same(n.as_str(), name) {
                return Some(&defs[i]);
            }
        }
        i += 1;
    }
    None
}

fn text_or_nothing(def: &Json, key: &str) -> (r: String)
    ensures
        r@ == or_nothing(def@.at(key@).text()),
{
    match def.text_of(key) {
        Some(s) => s,
        None => String::new(),
    }
}

/// The tools that a planner is offered, out of all definitions of tools.
pub fn planner_tools(defs: &Vec<Json>) -> (r: Vec<Tool>)
    ensures
        agent::tool_views(r@) == picked(json::json_views(defs@), planner_names()),
{
    let names = ["orient", "check_wiring", "read_file"];
    let ghost dv = json::json_views(defs@);
    let ghost nv = planner_names();
    let mut out: Vec<Tool> = Vec::new();
    let mut i: usize = 0;
    assert(nv.take(0) =~= Seq::<Seq<char>>::empty());
    assert(agent::tool_views(out@) =~= Seq::<ToolView>::empty());
    while i < 3
        invariant
            i <= 3,
            dv == json::json_views(defs@),
            nv == planner_names(),
            names@.len() == 3,
            forall|k: int| 0 <= k < 3 ==> (#[trigger] names@[k])@ == nv[k],
            agent::tool_views(out@) == picked(dv, nv.take(i as int)),
        decreases 3 - i,
    {
        proof {
            assert(nv.take(i + 1).drop_last() =~= nv.take(i as int));
            assert(nv.take(i + 1).last() == nv[i as int]);
            assert(names@[i as int]@ == nv[i as int]);
        }
        match definition(defs, names[i]) {
            Some(d) => {
                let parameters = match d.get("parameters") {
                    Some(p) => p.clone(),
                    None => Json::Null,
                };
                let t = Tool {
                    name: text_or_nothing(d, "name"),
                    description: text_or_nothing(d, "description"),
                    parameters,
                };
                let ghost before = agent::tool_views(out@);
                assert(agent::tool_view(t) == described(d@));
                out.push(t);
                assert(agent::tool_views(out@) =~= before.push(described(d@)));
            },
            None => {},
        }
        i += 1;
    }
    assert(nv.take(3) =~= nv);
    out
}

pub open spec fn reads_blocked() -> Seq<char> {
    "[planner: full-file reads are blocked — you already have line numbers from orient and the known locations. Call read_file with line_range=[start, end] for the specific section you need.]"@
}

/// Whether `t` is what the call asks for: a file is read only in a range.
pub open spec fn asks_for(c: ToolCallView, t: PlannerTool) -> bool {
    if c.name == "orient"@ {
        t is Orient
    } else if c.name == "find_symbol"@ {
        t is FindSymbol
    } else if c.name == "trace_calls"@ {
        t is TraceCalls
    } else if c.name == "check_wiring"@ {
        t is CheckWiring
    } else if c.name == "read_file"@ {
        let range = json::json_or_null(c.arguments).at("line_range"@);
        if range is List && range->List_0.len() > 0 {
            t is Read
        } else {
            t matches PlannerTool::Say(s) && s@ == reads_blocked()
        }
    } else {
        t matches PlannerTool::Say(s) && s@ == "[unknown planner tool: "@ + c.name + "]"@
    }
}

/// What a planner's call asks for.
pub fn planner_tool(c: &ToolCall) -> (t: PlannerTool)
    ensures
        asks_for(c@, t),
{
    let name = c.name.as_str();
    if same(name, "orient") {
        PlannerTool::Orient
    } else if same(name, "find_symbol") {
        PlannerTool::FindSymbol
    } else if same(name, "trace_calls") {
        PlannerTool::TraceCalls
    } else if same(name, "check_wiring") {
        PlannerTool::CheckWiring
    } else if same(name, "read_file") {
        let args = parse_or_null(c.arguments.as_str());
        if args.has_items("line_range") {
            PlannerTool::Read
        } else {
            PlannerTool::Say(
                "[planner: full-file reads are blocked — you already have line numbers from orient and the known locations. Call read_file with line_range=[start, end] for the specific section you need.]".to_owned(),
            )
        }
    } else {
        let mut s = "[unknown planner tool: ".to_owned();
        s.append(name);
        s.append("]");
        PlannerTool::Say(s)
    }
}

impl PlanRun {
    /// A run that begins: what is known of the project, then the task.
    pub fn start(task: &str, injection: Vec<Message>, user_prefix: String) -> (r: Self)
        ensures
            r@ == (RunView {
                messages: client::message_views(injection@).push(
                    client::text_message("user"@, user_prefix@ + "Task: "@ + task@),
                ),
                total_input: 0,
                total_output: 0,
                tool_calls: 0,
                output_mode: false,
                turn: 0,
                log: "=== PLAN SESSION ===\nTask: "@ + task@ + "\n\n"@,
            }),
    {
        let ghost given = client::message_views(injection@);
        let mut messages = injection;
        let mut content = user_prefix;
        content.append("Task: ");
        content.append(task);
        messages.push(plain_message("user", content));
        let mut log = "=== PLAN SESSION ===\nTask: ".to_owned();
        log.append(task);
        log.append("\n\n");
        assert(client::message_views(messages@) =~= given.push(
            client::text_message("user"@, user_prefix@ + "Task: "@ + task@),
        ));
        PlanRun {
            messages,
            total_input: 0,
            total_output: 0,
            tool_calls: 0,
            output_mode: false,
            turn: 0,
            log,
        }
    }

    fn tell(&mut self, content: &str)
        ensures
            final(self)@ == (RunView {
                messages: old(self)@.messages.push(client::text_message("user"@, content@)),
                ..old(self)@
            }),
    {
        let ghost before = self@.messages;
        self.messages.push(plain_message("user", content.to_owned()));
        assert(self@.messages =~= before.push(client::text_message("user"@, content@)));
    }

    /// Begins a turn: `None` where there is none left, else whether tools
    /// are offered.
    pub fn begin_turn(&mut self) -> (r: Option<bool>)
        ensures
            r is Some <==> old(self).turn < 20,
            old(self).turn >= MAX_TURNS ==> r is None && final(self)@ == old(self)@,
            old(self).turn < MAX_TURNS ==> r == Some(!final(self).output_mode) && final(self)@
                == turn_begun(old(self)@),
    {
        if self.turn >= MAX_TURNS {
            return None;
        }
        if self.tool_calls >= TOOL_CAP && !self.output_mode {
            self.tell(
                "Tool budget reached (8/8). Output the JSON plan now using what you have found. Approximate locations are fine — the executor reads full context. Do NOT explore further.",
            );
            self.output_mode = true;
        }
        self.turn = self.turn + 1;
        self.log.append("\n╔═══ TURN ");
        self.log.append(decimal_usize(self.turn).as_str());
        self.log.append(" ");
        self.log.append(if self.output_mode { "(output — no tools)" } else { "" });
        self.log.append(" ═══╗\n");
        Some(!self.output_mode)
    }

    /// Takes in the model's answer.
    pub fn answer(&mut self, resp: ModelResponse) -> (next: PlanNext)
        requires
            old(self).total_input + resp.input_tokens <= u32::MAX,
            old(self).total_output + resp.output_tokens <= u32::MAX,
        ensures
            final(self)@ == answered(old(self)@, resp),
            follows(old(self)@, resp, next),
    {
        let ghost before = self@;
        self.log.append(resp.text.as_str());
        self.total_input = self.total_input + resp.input_tokens;
        self.total_output = self.total_output + resp.output_tokens;
        let calls = clone_calls(&resp.tool_calls);
        self.messages.push(
            Message {
                role: "assistant".to_owned(),
                content: MessageContent::Text(resp.text.clone()),
                tool_calls: calls,
            },
        );
        assert(self@.messages =~= noted(before, resp).messages);
        if resp.tool_calls.len() > 0 {
            return PlanNext::RunTools(resp.tool_calls);
        }
        if holds(resp.text.as_str(), "<invoke") && holds(resp.text.as_str(), "</invoke>") {
            self.tell(
                "Use the JSON tool_calls format — do not emit XML. Call find_symbol or read_file using the API tool_calls mechanism.",
            );
            return PlanNext::Continue;
        }
        if extract_json(resp.text.as_str()).is_some() {
            self.log.append("\n\n=== FINAL PLAN ===\n");
            self.log.append(resp.text.as_str());
            self.log.append("\n");
            return PlanNext::Done(resp.text);
        }
        if self.output_mode {
            let mut e =
                "Plan parse error: model was asked to output JSON but did not.\n\nModel response:\n".to_owned();
            e.append(resp.text.as_str());
            return PlanNext::Failed(e);
        }
        self.tell("You have finished exploring. Now output the JSON plan.");
        self.output_mode = true;
        PlanNext::Continue
    }

    /// Takes in the results of the tools that the model called.
    pub fn tools_ran(&mut self, calls: &Vec<ToolCall>, results: &Vec<String>, reminder: &str)
        requires
            results.len() == calls.len(),
            old(self).tool_calls + calls.len() <= usize::MAX,
        ensures
            final(self)@ == with_results(
                old(self)@,
                client::call_views(calls@),
                text::views(results@),
                reminder@,
            ),
    {
        let ghost before = self@;
        let ghost cs = client::call_views(calls@);
        let ghost rs = text::views(results@);
        let ghost found = Seq::new(cs.len(), |i: int| PartView::ToolResult(cs[i].id, rs[i]));
        let ghost lead = if reminder@.len() == 0 {
            Seq::<PartView>::empty()
        } else {
            seq![PartView::Text(reminder@)]
        };
        let mut parts: Vec<ContentPart> = Vec::new();
        let mut log = String::new();
        if !reminder.is_empty() {
            parts.push(ContentPart::Text { text: reminder.to_owned() });
        }
        assert(client::part_views(parts@) =~= lead);
        assert(lead + found.take(0) =~= lead);
        let mut i: usize = 0;
        while i < calls.len()
            invariant
                i <= calls.len(),
                results.len() == calls.len(),
                cs == client::call_views(calls@),
                rs == text::views(results@),
                found == Seq::new(cs.len(), |i: int| PartView::ToolResult(cs[i].id, rs[i])),
                client::part_views(parts@) == lead + found.take(i as int),
                log@ == call_logs(cs, rs, i as int),
            decreases calls.len() - i,
        {
            let c = &calls[i];
            assert(cs[i as int] == c@);
            assert(rs[i as int] == results@[i as int]@);
            let ghost so_far = log@;
            let mut one = "\n\n◆ ".to_owned();
            one.append(c.name.as_str());
            one.append(" ");
            one.append(planner_args_summary(c).as_str());
            one.append("\n→ ");
            one.append(results[i].as_str());
            one.append("\n");
            log.append(one.as_str());
            let ghost had = client::part_views(parts@);
            let part = ContentPart::ToolResult {
                tool_use_id: c.id.clone(),
                content: results[i].clone(),
            };
            parts.push(part);
            assert(client::part_views(parts@) =~= had.push(part@));
            assert(lead + found.take(i + 1) =~= (lead + found.take(i as int)).push(
                found[i as int],
            ));
            i += 1;
        }
        assert(found.take(i as int) =~= found);
        self.log.append(log.as_str());
        self.tool_calls = self.tool_calls + calls.len();
        let m = Message {
            role: "user".to_owned(),
            content: MessageContent::Parts(parts),
            tool_calls: Vec::new(),
        };
        self.messages.push(m);
        proof {
            assert(client::call_views(m.tool_calls@) =~= Seq::<ToolCallView>::empty());
            assert(lead + found =~= if reminder@.len() == 0 {
                found
            } else {
                seq![PartView::Text(reminder@)] + found
            });
            assert(m@ == results_message(cs, rs, reminder@));
            assert(self@.messages =~= before.messages.push(m@));
        }
    }

    /// What is shown once the plan is there.
    pub fn report(&self, elapsed_secs: u32) -> (r: String)
        ensures
            r@ == "⚙ plan generated — "@ + number::decimal(self.tool_calls as nat)
                + " explore calls · "@ + number::decimal(self.total_input as nat) + "→+"@
                + number::decimal(self.total_output as nat) + " tokens · "@ + number::decimal(
                elapsed_secs as nat,
            ) + "s"@,
    {
        let mut s = "⚙ plan generated — ".to_owned();
        s.append(decimal_usize(self.tool_calls).as_str());
        s.append(" explore calls · ");
        s.append(decimal_of(self.total_input as u64).as_str());
        s.append("→+");
        s.append(decimal_of(self.total_output as u64).as_str());
        s.append(" tokens · ");
        s.append(decimal_of(elapsed_secs as u64).as_str());
        s.append("s");
        s
    }
}

/// Why there is no plan when the turns are used up.
pub fn exhausted() -> (r: &'static str)
    ensures
        r@
            == "Plan generation exhausted 20 turns without producing a plan. Try simplifying the task or using a different model."@,
{
    "Plan generation exhausted 20 turns without producing a plan. Try simplifying the task or using a different model."
}

/// The JSON of the plan in the model's answer, fit to be parsed.
pub fn plan_json(answer: &str) -> (r: Result<String, String>)
    ensures
        match r {
            Ok(j) => repair::json_within(text::trim(answer@)) is Some && j@ == repair::sanitized(
                repair::json_within(text::trim(answer@))->0,
                false,
                false,
            ),
            Err(e) => repair::json_within(text::trim(answer@)) is None && e@
                == "Plan parse error: could not extract JSON from model response.\n\nModel response:\n"@
                + text::trim(answer@),
        },
{
    let t = trimmed(answer);
    match extract_json(t.as_str()) {
        Some(j) => Ok(sanitize_json_strings(j.as_str())),
        None => {
            let mut e =
                "Plan parse error: could not extract JSON from model response.\n\nModel response:\n".to_owned();
            e.append(t.as_str());
            Err(e)
        },
    }
}

/// The JSON of a plan is never empty and begins with an opening brace.
pub proof fn plan_json_is_braced(answer: Seq<char>)
    requires
        repair::json_within(answer) is Some,
    ensures
        repair::sanitized(repair::json_within(answer)->0, false, false).len() > 0,
        repair::opening(repair::sanitized(repair::json_within(answer)->0, false, false)[0]),
{
    repair::extracted_is_braced(answer);
}

/// From the turn on at which the tools are used up, none are offered.
pub proof fn no_tools_when_spent(s: RunView)
    requires
        s.tool_calls >= TOOL_CAP,
    ensures
        turn_begun(s).output_mode,
{
}

/// A run that no longer offers tools does not offer them again.
pub proof fn output_mode_stays(
    s: RunView,
    r: ModelResponse,
    cs: Seq<ToolCallView>,
    results: Seq<Seq<char>>,
    reminder: Seq<char>,
)
    requires
        s.output_mode,
    ensures
        turn_begun(s).output_mode,
        answered(s, r).output_mode,
        with_results(s, cs, results, reminder).output_mode,
{
}

// ── The prompt, to be looked at ──────────────────────────────────────────────

/// What `{:?}` prints of a string.
pub uninterp spec fn debug_form(s: Seq<char>) -> Seq<char>;

/// `format!` with `{:?}`: a string in quotes, with escapes. The text depends
/// on the string alone.
#[verifier::external_body]
fn debug_text(s: &str) -> (r: String)
    ensures
        r@ == debug_form(s@),
{
    format!("{s:?}")
}

pub open spec fn part_dump(p: PartView) -> Seq<char> {
    match p {
        PartView::ToolResult(id, content) => "[ToolResult id="@ + id + "]\n"@ + content,
        PartView::Text(t) => "Text { text: "@ + debug_form(t) + " }"@,
    }
}

pub open spec fn content_dump(c: ContentView) -> Seq<char> {
    match c {
        ContentView::Text(t) => t,
        ContentView::Parts(ps) => pieces::join(
            Seq::new(ps.len(), |i: int| part_dump(ps[i])),
            "\n"@,
        ),
    }
}

/// The first `n` messages, one below the other.
pub open spec fn messages_dump(ms: Seq<MessageView>, n: int) -> Seq<char>
    decreases n,
{
    if n <= 0 {
        Seq::empty()
    } else {
        messages_dump(ms, n - 1) + "\n--- MESSAGE "@ + number::decimal((n - 1) as nat) + " ("@
            + ms[n - 1].role + ") ---\n"@ + content_dump(ms[n - 1].content) + "\n"@
    }
}

fn dump_content(c: &MessageContent) -> (r: String)
    ensures
        r@ == content_dump(c@),
{
    match c {
        MessageContent::Text(t) => t.clone(),
        MessageContent::Parts(ps) => {
            let ghost goal = Seq::new(ps@.len(), |i: int| part_dump(client::part_views(ps@)[i]));
            let mut out: Vec<String> = Vec::new();
            let mut i: usize = 0;
            while i < ps.len()
                invariant
                    i <= ps.len(),
                    out.len() == i,
                    forall|k: int| 0 <= k < i ==> (#[trigger] out@[k])@ == part_dump(ps@[k]@),
                decreases ps.len() - i,
            {
                let s = match &ps[i] {
                    ContentPart::ToolResult { tool_use_id, content } => {
                        let mut s = "[ToolResult id=".to_owned();
                        s.append(tool_use_id.as_str());
                        s.append("]\n");
                        s.append(content.as_str());
                        s
                    },
                    ContentPart::Text { text } => {
                        let mut s = "Text { text: ".to_owned();
                        s.append(debug_text(text.as_str()).as_str());
                        s.append(" }");
                        s
                    },
                };
                out.push(s);
                i += 1;
            }
            assert(text::views(out@) =~= goal);
            pieces::join_with(&out, "\n")
        },
    }
}

/// The whole prompt as text.
pub fn prompt_dump(system_prompt: &str, messages: &Vec<Message>) -> (r: String)
    ensures
        r@ == "=== SYSTEM PROMPT ===\n"@ + system_prompt@ + "\n\n"@ + messages_dump(
            client::message_views(messages@),
            messages@.len() as int,
        ),
{
    let mut out = "=== SYSTEM PROMPT ===\n".to_owned();
    out.append(system_prompt);
    out.append("\n\n");
    let ghost ms = client::message_views(messages@);
    let mut body = String::new();
    let mut i: usize = 0;
    while i < messages.len()
        invariant
            i <= messages.len(),
            ms == client::message_views(messages@),
            body@ == messages_dump(ms, i as int),
        decreases messages.len() - i,
    {
        assert(ms[i as int] == messages@[i as int]@);
        body.append("\n--- MESSAGE ");
        body.append(decimal_usize(i).as_str());
        body.append(" (");
        body.append(messages[i].role.as_str());
        body.append(") ---\n");
        body.append(dump_content(&messages[i].content).as_str());
        body.append("\n");
        i += 1;
    }
    out.append(body.as_str());
    out
}

/// A turn counts, and changes the messages only where the tools are used up
/// before the plan was asked for: then it is asked for.
pub proof fn plan_is_asked_for_once(s: RunView)
    ensures
        turn_begun(s).turn == s.turn + 1,
        turn_begun(s).total_input == s.total_input,
        turn_begun(s).total_output == s.total_output,
        turn_begun(s).tool_calls == s.tool_calls,
        s.output_mode || s.tool_calls < 8 ==> turn_begun(s).messages == s.messages
            && turn_begun(s).output_mode == s.output_mode,
        !s.output_mode && s.tool_calls >= 8 ==> turn_begun(s).output_mode && turn_begun(
            s,
        ).messages.len() == s.messages.len() + 1 && turn_begun(s).messages.last().role == "user"@
            && turn_begun(turn_begun(s)).messages == turn_begun(s).messages,
{
}

/// Each answer is put behind the messages, with its calls, and what it used is
/// added. Where it leads on without tools, the model is told what is missing;
/// else its answer is the last message.
pub proof fn answers_are_noted(s: RunView, r: ModelResponse, next: PlanNext)
    requires
        follows(s, r, next),
    ensures
        ({
            let a = answered(s, r);
            let n = s.messages.len() as int;
            &&& a.total_input == s.total_input + r.input_tokens
            &&& a.total_output == s.total_output + r.output_tokens
            &&& a.tool_calls == s.tool_calls && a.turn == s.turn
            &&& a.messages.len() > n && a.messages.take(n) == s.messages
            &&& a.messages[n].role == "assistant"@
            &&& a.messages[n].content == ContentView::Text(r.text@)
            &&& a.messages[n].tool_calls == client::call_views(r.tool_calls@)
            &&& next is Continue ==> a.messages.len() == n + 2 && a.messages.last().role == "user"@
            &&& !(next is Continue) ==> a.messages.len() == n + 1
            &&& next is RunTools <==> r.tool_calls@.len() > 0
            &&& next is Failed ==> s.output_mode
            &&& next is Done ==> repair::json_within(r.text@) is Some
        }),
{
    let n = s.messages.len() as int;
    assert(answered(s, r).messages.take(n) =~= s.messages);
}

/// Each call gets its result, by its id and in its order; a reminder stands in
/// front of them.
pub proof fn calls_get_their_results(
    s: RunView,
    cs: Seq<ToolCallView>,
    results: Seq<Seq<char>>,
    reminder: Seq<char>,
    i: int,
)
    requires
        cs.len() == results.len(),
        0 <= i < cs.len(),
    ensures
        ({
            let a = with_results(s, cs, results, reminder);
            let m = a.messages.last();
            &&& a.tool_calls == s.tool_calls + cs.len()
            &&& a.messages.len() == s.messages.len() + 1
            &&& m.role == "user"@
            &&& m.content matches ContentView::Parts(ps) && (if reminder.len() == 0 {
                ps.len() == cs.len() && ps[i] == PartView::ToolResult(cs[i].id, results[i])
            } else {
                ps.len() == cs.len() + 1 && ps[0] == PartView::Text(reminder) && ps[i + 1]
                    == PartView::ToolResult(cs[i].id, results[i])
            })
        }),
{
}

/// A tool is the first that is defined under its name.
pub proof fn first_definition_counts(defs: Seq<JsonView>, name: Seq<char>, i: int)
    requires
        0 <= i <= defs.len(),
        forall|k: int| 0 <= k < i ==> (#[trigger] defs[k]).at("name"@) != JsonView::Text(name),
    ensures
        i == defs.len() ==> defined(defs, name) is None,
        i < defs.len() && defs[i].at("name"@) == JsonView::Text(name) ==> defined(defs, name) == Some(
            defs[i],
        ),
    decreases defs.len(),
{
    if i > 0 {
        let t = defs.skip(1);
        assert forall|k: int| 0 <= k < i - 1 implies (#[trigger] t[k]).at("name"@) != JsonView::Text(
            name,
        ) by {
            assert(t[k] == defs[k + 1]);
        }
        first_definition_counts(t, name, i - 1);
        assert(defs[0].at("name"@) != JsonView::Text(name));
        if i < defs.len() {
            assert(t[i - 1] == defs[i]);
        }
    }
}

/// Each tool that the planner has is known by its name; a file is read only by
/// a range of lines, and what is not known is told so.
pub proof fn planner_calls_are_known(c: ToolCallView, t: PlannerTool)
    requires
        asks_for(c, t),
    ensures
        c.name == "orient"@ ==> t is Orient,
        c.name == "find_symbol"@ ==> t is FindSymbol,
        c.name == "trace_calls"@ ==> t is TraceCalls,
        c.name == "check_wiring"@ ==> t is CheckWiring,
        c.name == "read_file"@ ==> (t is Read <==> (json::json_or_null(c.arguments).at(
            "line_range"@,
        ) matches JsonView::List(r) && r.len() > 0)),
        t is Say ==> c.name != "orient"@ && c.name != "find_symbol"@ && c.name != "trace_calls"@ && c.name
            != "check_wiring"@,
{
    reveal_strlit("orient");
    reveal_strlit("find_symbol");
    reveal_strlit("trace_calls");
    reveal_strlit("check_wiring");
    reveal_strlit("read_file");
    assert("orient"@[0] == 'o' && "find_symbol"@[0] == 'f' && "trace_calls"@[0] == 't'
        && "check_wiring"@[0] == 'c' && "read_file"@[0] == 'r');
}

/// The tools that are picked are those that are defined, in the order in which
/// they are named.
pub proof fn named_tools_are_picked(defs: Seq<JsonView>, names: Seq<Seq<char>>)
    ensures
        picked(defs, names) == names.filter(|n: Seq<char>| defined(defs, n) is Some).map_values(
            |n: Seq<char>| described(defined(defs, n)->0),
        ),
    decreases names.len(),
{
    reveal(Seq::filter);
    let some = |n: Seq<char>| defined(defs, n) is Some;
    let show = |n: Seq<char>| described(defined(defs, n)->0);
    if names.len() > 0 {
        let t = names.drop_last();
        named_tools_are_picked(defs, t);
        assert(t.filter(some).push(names.last()).map_values(show) =~= t.filter(some).map_values(
            show,
        ).push(show(names.last())));
    } else {
        assert(names.filter(some).map_values(show) =~= Seq::empty());
    }
}

/// Tools are offered for eight calls; then the model is told once that they
/// are used up.
pub proof fn eight_calls_are_offered(s: RunView)
    ensures
        turn_begun(s).output_mode <==> s.output_mode || s.tool_calls >= 8,
        turn_begun(s).turn == s.turn + 1,
        turn_begun(s).tool_calls == s.tool_calls,
        s.output_mode == turn_begun(s).output_mode ==> turn_begun(s).messages == s.messages,
        s.output_mode != turn_begun(s).output_mode ==> turn_begun(s).messages == s.messages.push(
            client::text_message("user"@, budget_reached()),
        ),
{
}

} // verus!
