//! The agent: what the model is told, and what follows from its answers.

use crate::budget;
use crate::budget::{estimate_messages, estimate_tokens, Budget, LoopDetector};
use crate::client;
use crate::client::{clone_calls, plain_message, ContentPart, ContentView, Message, MessageContent, MessageView, ModelResponse, Tool, ToolCall, ToolCallView};
use crate::consumed;
use crate::consumed::strip_cot_from_last_assistant;
use crate::events;
use crate::events::{EventView, UiEvent};
use crate::history;
use crate::history::{History, RecordView};
use crate::hooks::HookConfig;
use crate::json;
use crate::json::JsonView;
use crate::mcp::McpTool;
use crate::narrative::ProjectNarrative;
use crate::pie::ProjectGraph;
use crate::pieces;
use crate::pieces::{join_with, lines_of};
use crate::sessions;
use crate::sessions::{ConversationTurn, TurnView};
use crate::text;
use crate::text::{count, holds, one_of, take_chars, trimmed};
use crate::think;
use crate::think::without_thinking;
use vstd::prelude::*;

verus! {

broadcast use crate::text::views_push;

/// How many tools a task may call.
pub const MAX_TOOL_CALLS: usize = 40;

/// How many earlier turns the model is told of.
pub const MAX_PRIOR_TURNS: usize = 3;

pub const SYSTEM_PROMPT_BASE: &'static str = "You are PareCode, a coding assistant. Complete tasks using the available tools in minimum tool calls. A project index is pre-loaded — use project_index for symbol locations before read_file. When done, stop.";

pub const QUICK_SYSTEM: &'static str = "You are PareCode in quick mode. Answer concisely in one response. If a tool call is needed, make exactly one — prefer edit_file or bash. Do not read files unless strictly necessary. Keep responses short.";

/// The settings of an agent.
#[derive(Debug)]
pub struct AgentConfig {
    pub verbose: bool,
    /// Whether tools are only named, not run.
    pub dry_run: bool,
    pub context_tokens: u32,
    pub _profile_name: String,
    pub _model: String,
    pub _show_timestamps: bool,
    pub hooks: HookConfig,
    pub hooks_enabled: bool,
    pub auto_commit: bool,
    pub auto_commit_prefix: String,
    pub git_context: bool,
    pub project_graph: Option<ProjectGraph>,
    pub project_narrative: Option<ProjectNarrative>,
}

// ── Prompts ──────────────────────────────────────────────────────────────────

/// The conventions in the first file that has any: each file is given by its
/// path and what it holds, if it can be read.
pub open spec fn conventions_in(files: Seq<(Seq<char>, Option<Seq<char>>)>) -> Option<Seq<char>>
    decreases files.len(),
{
    if files.len() == 0 {
        None
    } else {
        match files[0].1 {
            Some(c) => if text::trim(c).len() > 0 {
                Some(
                    "\n\n# Project conventions ("@ + files[0].0 + ")\n\n"@ + text::trim(c),
                )
            } else {
                conventions_in(files.skip(1))
            },
            None => conventions_in(files.skip(1)),
        }
    }
}

pub open spec fn file_views(v: Seq<(String, Option<String>)>) -> Seq<
    (Seq<char>, Option<Seq<char>>),
> {
    Seq::new(v.len(), |i: int| (v[i].0@, text::opt_text(v[i].1)))
}

/// The files that may hold conventions, in the order in which they count:
/// those of all agents, those of one other agent, and our own.
pub open spec fn convention_names(other: Seq<char>) -> Seq<Seq<char>> {
    seq!["AGENTS.md"@, other, ".parecode/conventions.md"@]
}

/// The files that may hold conventions, in the order in which they count.
pub fn convention_files<'a>(other: &'a str) -> (r: [&'a str; 3])
    ensures
        text::texts(r@) == convention_names(other@),
{
    let names = ["AGENTS.md", other, ".parecode/conventions.md"];
    assert(text::texts(names@) =~= convention_names(other@));
    names
}

/// The conventions in the first file that has any.
pub fn load_conventions(files: &Vec<(String, Option<String>)>) -> (r: Option<String>)
    ensures
        text::opt_text(r) == conventions_in(file_views(files@)),
{
    let ghost fv = file_views(files@);
    let mut i: usize = 0;
    assert(fv.skip(0) =~= fv);
    while i < files.len()
        invariant
            i <= files.len(),
            fv == file_views(files@),
            conventions_in(fv) == conventions_in(fv.skip(i as int)),
        decreases files.len() - i,
    {
        assert(fv.skip(i as int)[0] == (files@[i as int].0@, text::opt_text(files@[i as int].1)));
        assert(fv.skip(i as int).skip(1) =~= fv.skip(i + 1));
        if let Some(c) = &files[i].1 {
            let t = trimmed(c.as_str());
            if count(t.as_str()) > 0 {
                let mut s = "\n\n# Project conventions (".to_owned();
                s.append(files[i].0.as_str());
                s.append(")\n\n");
                s.append(t.as_str());
                return Some(s);
            }
        }
        i += 1;
    }
    None
}

pub open spec fn system_prompt(conventions: Option<Seq<char>>, status: Option<Seq<char>>) -> Seq<
    char,
> {
    SYSTEM_PROMPT_BASE@ + (match conventions {
        Some(c) => c,
        None => Seq::empty(),
    }) + (match status {
        Some(s) => if text::trim(s).len() > 0 {
            "\n\n# Git status\n\n```\n"@ + text::trim(s) + "\n```"@
        } else {
            Seq::empty()
        },
        None => Seq::empty(),
    })
}

/// What the model is told of its work: who it is, the project's conventions,
/// and the state of the repository.
pub fn build_system_prompt(conventions: Option<&str>, git_status: Option<&str>) -> (r: String)
    ensures
        r@ == system_prompt(sessions::opt_str(conventions), sessions::opt_str(git_status)),
{
    let mut s = SYSTEM_PROMPT_BASE.to_owned();
    let ghost b1 = s@;
    match conventions {
        Some(c) => {
            s.append(c);
        },
        None => {
            assert(b1 + Seq::<char>::empty() =~= b1);
        },
    }
    let ghost b2 = s@;
    assert(b2 + Seq::<char>::empty() =~= b2);
    if let Some(status) = git_status {
        let t = trimmed(status);
        if count(t.as_str()) > 0 {
            let mut section = "\n\n# Git status\n\n```\n".to_owned();
            section.append(t.as_str());
            section.append("\n```");
            s.append(section.as_str());
        }
    }
    s
}

pub open spec fn file_hints(attached: Seq<Seq<char>>) -> Seq<char>
    decreases attached.len(),
{
    if attached.len() == 0 {
        Seq::empty()
    } else {
        file_hints(attached.drop_last()) + "- "@ + attached.last() + "\n"@
    }
}

/// A task behind the files that bear on it.
pub open spec fn user_message(task: Seq<char>, attached: Seq<Seq<char>>) -> Seq<char> {
    if attached.len() == 0 {
        task
    } else {
        "Relevant files (use read_file if you need content):\n"@ + file_hints(attached) + "\n"@
            + task
    }
}

/// A task behind the files that bear on it.
pub fn build_user_message(task: &str, attached: &Vec<String>) -> (r: String)
    ensures
        r@ == user_message(task@, text::views(attached@)),
{
    let ghost av = text::views(attached@);
    assert(av.len() == attached@.len());
    if attached.len() == 0 {
        return task.to_owned();
    }
    let mut hints = String::new();
    let mut i: usize = 0;
    assert(av.take(0) =~= Seq::<Seq<char>>::empty());
    while i < attached.len()
        invariant
            i <= attached.len(),
            av == text::views(attached@),
            hints@ == file_hints(av.take(i as int)),
        decreases attached.len() - i,
    {
        assert(av.take(i + 1).drop_last() =~= av.take(i as int));
        assert(av.take(i + 1).last() == attached@[i as int]@);
        hints.append("- ");
        hints.append(attached[i].as_str());
        hints.append("\n");
        i += 1;
    }
    assert(av.take(i as int) =~= av);
    let mut s = "Relevant files (use read_file if you need content):\n".to_owned();
    s.append(hints.as_str());
    s.append("\n");
    s.append(task);
    s
}

/// The summary of a task under which its start is marked.
pub fn checkpoint_summary(task: &str) -> (r: String)
    ensures
        r@ == text::first_chars(pieces::first_line(task@), 60),
{
    take_chars(pieces::first_line_of(task).as_str(), 60)
}

/// What a `Tool` says.
#[verifier::ext_equal]
pub struct ToolView {
    pub name: Seq<char>,
    pub description: Seq<char>,
    pub parameters: JsonView,
}

pub open spec fn tool_view(t: Tool) -> ToolView {
    ToolView { name: t.name@, description: t.description@, parameters: t.parameters@ }
}

pub open spec fn tool_views(v: Seq<Tool>) -> Seq<ToolView> {
    Seq::new(v.len(), |i: int| tool_view(v[i]))
}

/// The tools of servers, as the model is offered them.
pub fn server_tools(tools: &Vec<McpTool>) -> (r: Vec<Tool>)
    ensures
        tool_views(r@) == Seq::new(
            tools@.len(),
            |i: int|
                ToolView {
                    name: tools@[i].qualified_name@,
                    description: tools@[i].description@,
                    parameters: tools@[i].input_schema@,
                },
        ),
{
    let mut out: Vec<Tool> = Vec::new();
    let mut i: usize = 0;
    while i < tools.len()
        invariant
            i <= tools.len(),
            out.len() == i,
            forall|k: int|
                0 <= k < i ==> tool_view(#[trigger] out@[k]) == (ToolView {
                    name: tools@[k].qualified_name@,
                    description: tools@[k].description@,
                    parameters: tools@[k].input_schema@,
                }),
        decreases tools.len() - i,
    {
        out.push(
            Tool {
                name: tools[i].qualified_name.clone(),
                description: tools[i].description.clone(),
                parameters: tools[i].input_schema.clone(),
            },
        );
        i += 1;
    }
    assert(tool_views(out@) =~= Seq::new(
        tools@.len(),
        |i: int|
            ToolView {
                name: tools@[i].qualified_name@,
                description: tools@[i].description@,
                parameters: tools@[i].input_schema@,
            },
    ));
    out
}

// ── A run ────────────────────────────────────────────────────────────────────

/// A task on its way.
#[derive(Debug)]
pub struct AgentRun {
    pub messages: Vec<Message>,
    pub total_input_tokens: u32,
    pub total_output_tokens: u32,
    pub tool_call_count: usize,
    pub turn: usize,
    pub budget: Budget,
    pub history: History,
    pub loop_detector: LoopDetector,
    /// What the system prompt costs.
    pub system_tokens: usize,
}

/// What an `AgentRun` says.
#[verifier::ext_equal]
pub struct RunView {
    pub messages: Seq<MessageView>,
    pub total_input_tokens: nat,
    pub total_output_tokens: nat,
    pub tool_call_count: nat,
    pub turn: nat,
    pub total_context: nat,
    pub threshold: nat,
    pub history: Seq<RecordView>,
    pub seen: Seq<Seq<char>>,
    pub system_tokens: nat,
}

impl View for AgentRun {
    type V = RunView;

    open spec fn view(&self) -> RunView {
        RunView {
            messages: client::message_views(self.messages@),
            total_input_tokens: self.total_input_tokens as nat,
            total_output_tokens: self.total_output_tokens as nat,
            tool_call_count: self.tool_call_count as nat,
            turn: self.turn as nat,
            total_context: self.budget.config.total_context as nat,
            threshold: budget::four_fifths(self.budget.config.usable_tokens()),
            history: self.history@,
            seen: self.loop_detector@,
            system_tokens: self.system_tokens as nat,
        }
    }
}

/// What is usable of a context.
pub open spec fn usable_of(context: nat) -> nat {
    if context >= budget::headroom(context) {
        (context - budget::headroom(context)) as nat
    } else {
        0
    }
}

/// An earlier turn as the model is told of it.
pub open spec fn turn_messages(t: TurnView) -> Seq<MessageView> {
    seq![
        client::text_message("user"@, text::first_chars(t.user_message, 300)),
        client::text_message("assistant"@, text::first_chars(t.agent_response, 500)),
    ]
}

pub open spec fn prior_messages(ts: Seq<TurnView>) -> Seq<MessageView>
    decreases ts.len(),
{
    if ts.len() == 0 {
        Seq::empty()
    } else {
        prior_messages(ts.drop_last()) + turn_messages(ts.last())
    }
}

/// The last turns of a session.
pub open spec fn last_turns(ts: Seq<TurnView>) -> Seq<TurnView> {
    if ts.len() > MAX_PRIOR_TURNS {
        ts.skip(ts.len() - MAX_PRIOR_TURNS)
    } else {
        ts
    }
}

/// What the model sees when a task starts: the project index, the last turns
/// and the task.
pub open spec fn opening(
    intro: Seq<MessageView>,
    prior: Seq<TurnView>,
    task: Seq<char>,
    attached: Seq<Seq<char>>,
) -> Seq<MessageView> {
    intro + prior_messages(last_turns(prior)) + seq![
        client::text_message("user"@, user_message(task, attached)),
    ]
}

/// Whether the next request may go out.
#[derive(Debug, PartialEq, Eq, Structural, Clone, Copy)]
pub enum TurnStart {
    Request,
    /// Too many tools were called.
    Stop,
}

/// What follows from an answer.
#[derive(Debug, PartialEq, Eq, Structural, Clone, Copy)]
pub enum Answered {
    /// The calls are to be run.
    RunTools,
    /// The model is to try again.
    Retry,
    /// The task is done.
    Done,
}

pub open spec fn use_json() -> Seq<char> {
    "You used XML <invoke> tool syntax instead of JSON tool calls. Use the JSON tool_calls format provided in the API — do not emit XML. Retry your intended action now using the correct format."@
}

/// Whether an answer tries to call tools in a form that is not understood.
pub open spec fn calls_in_xml(answer: Seq<char>) -> bool {
    text::contains(answer, "<invoke"@) && text::contains(answer, "</invoke>"@)
}

/// What follows from an answer.
pub open spec fn next_step(answer: Seq<char>, calls: Seq<ToolCallView>) -> Answered {
    if calls.len() > 0 {
        Answered::RunTools
    } else if calls_in_xml(answer) {
        Answered::Retry
    } else {
        Answered::Done
    }
}

/// The messages after an answer: its reasoning is left out.
pub open spec fn with_answer(
    ms: Seq<MessageView>,
    answer: Seq<char>,
    calls: Seq<ToolCallView>,
) -> Seq<MessageView> {
    let told = ms.push(
        MessageView {
            role: "assistant"@,
            content: ContentView::Text(think::told_apart(answer, false).normal),
            tool_calls: calls,
        },
    );
    if next_step(answer, calls) == Answered::Retry {
        told.push(client::text_message("user"@, use_json()))
    } else {
        told
    }
}

fn prior_pairs(prior: &Vec<ConversationTurn>) -> (r: Vec<Message>)
    ensures
        client::message_views(r@) == prior_messages(last_turns(sessions::turn_views(prior@))),
{
    let ghost tv = sessions::turn_views(prior@);
    let ghost lt = last_turns(tv);
    let start: usize = prior.len().saturating_sub(MAX_PRIOR_TURNS);
    assert(lt =~= tv.skip(start as int));
    let mut out: Vec<Message> = Vec::new();
    let mut i: usize = start;
    assert(lt.take(0) =~= Seq::<TurnView>::empty());
    assert(client::message_views(out@) =~= Seq::<MessageView>::empty());
    while i < prior.len()
        invariant
            start <= i <= prior.len(),
            tv == sessions::turn_views(prior@),
            lt == tv.skip(start as int),
            client::message_views(out@) == prior_messages(lt.take(i - start)),
        decreases prior.len() - i,
    {
        let t = &prior[i];
        assert(lt.take(i - start + 1).drop_last() =~= lt.take(i - start));
        assert(lt.take(i - start + 1).last() == t@);
        let ghost before = client::message_views(out@);
        out.push(plain_message("user", take_chars(t.user_message.as_str(), 300)));
        out.push(plain_message("assistant", take_chars(t.agent_response.as_str(), 500)));
        assert(client::message_views(out@) =~= before + turn_messages(t@));
        i += 1;
    }
    assert(lt.take(i - start) =~= lt);
    out
}

fn push_event(told: &mut Vec<UiEvent>, ev: UiEvent)
    ensures
        events::event_views(final(told)@) == events::event_views(old(told)@).push(ev@),
{
    let ghost before = events::event_views(told@);
    told.push(ev);
    assert(events::event_views(told@) =~= before.push(ev@));
}

impl AgentRun {
    /// Starts a task. `intro` are the messages of the project index.
    pub fn start(
        task: &str,
        attached: &Vec<String>,
        prior_turns: &Vec<ConversationTurn>,
        intro: Vec<Message>,
        context_tokens: u32,
        system_prompt: &str,
    ) -> (r: Self)
        ensures
            r@ == (RunView {
                messages: opening(
                    client::message_views(intro@),
                    sessions::turn_views(prior_turns@),
                    task@,
                    text::views(attached@),
                ),
                total_input_tokens: 0,
                total_output_tokens: 0,
                tool_call_count: 0,
                turn: 0,
                total_context: context_tokens as nat,
                threshold: budget::four_fifths(usable_of(context_tokens as nat)),
                history: Seq::empty(),
                seen: Seq::empty(),
                system_tokens: budget::cost(system_prompt@),
            }),
    {
        let mut messages = intro;
        let mut pairs = prior_pairs(prior_turns);
        let ghost iv = client::message_views(messages@);
        let ghost pv = client::message_views(pairs@);
        messages.append(&mut pairs);
        assert(client::message_views(messages@) =~= iv + pv);
        let m = plain_message("user", build_user_message(task, attached));
        messages.push(m);
        assert(client::message_views(messages@) =~= opening(
            iv,
            sessions::turn_views(prior_turns@),
            task@,
            text::views(attached@),
        ));
        AgentRun {
            messages,
            total_input_tokens: 0,
            total_output_tokens: 0,
            tool_call_count: 0,
            turn: 0,
            budget: Budget::new(context_tokens),
            history: History::default(),
            loop_detector: LoopDetector::default(),
            system_tokens: estimate_tokens(system_prompt),
        }
    }

    /// Starts a turn: the conversation is brought within the budget, unless
    /// too many tools were called.
    pub fn begin_turn(&mut self) -> (r: (TurnStart, Vec<UiEvent>))
        requires
            old(self)@.turn < usize::MAX,
        ensures
            r.0 == TurnStart::Stop <==> old(self)@.tool_call_count >= 40,
            ({
                let v = old(self)@;
                let after = budget::enforced(v.messages, v.system_tokens, v.threshold);
                let compressed = budget::messages_cost(v.messages) + v.system_tokens
                    > v.threshold;
                if v.tool_call_count >= MAX_TOOL_CALLS {
                    &&& r.0 == TurnStart::Stop
                    &&& events::event_views(r.1@) == seq![
                        EventView::ToolBudgetHit { limit: MAX_TOOL_CALLS as nat },
                    ]
                    &&& final(self)@ == (RunView { turn: v.turn + 1, ..v })
                } else {
                    &&& r.0 == TurnStart::Request
                    &&& events::event_views(r.1@) == (if compressed {
                        seq![EventView::BudgetWarning]
                    } else {
                        Seq::empty()
                    }) + seq![
                        EventView::ContextUpdate {
                            used: budget::capped(
                                budget::messages_cost(after) + v.system_tokens,
                            ),
                            total: v.total_context,
                            compressed,
                        },
                    ]
                    &&& final(self)@ == (RunView { turn: v.turn + 1, messages: after, ..v })
                }
            }),
    {
        self.turn = self.turn + 1;
        let mut told: Vec<UiEvent> = Vec::new();
        assert(events::event_views(told@) =~= Seq::<EventView>::empty());
        if self.tool_call_count >= MAX_TOOL_CALLS {
            push_event(&mut told, UiEvent::ToolBudgetHit { limit: MAX_TOOL_CALLS });
            assert(events::event_views(told@) =~= seq![
                EventView::ToolBudgetHit { limit: MAX_TOOL_CALLS as nat },
            ]);
            return (TurnStart::Stop, told);
        }
        let (used, compressed) = self.budget.enforce(&mut self.messages, self.system_tokens);
        if compressed {
            push_event(&mut told, UiEvent::BudgetWarning);
            assert(events::event_views(told@) =~= seq![EventView::BudgetWarning]);
        }
        let ghost before = events::event_views(told@);
        let ev = UiEvent::ContextUpdate { used, total: self.budget.total_context(), compressed };
        push_event(&mut told, ev);
        assert(events::event_views(told@) =~= before + seq![ev@]);
        (TurnStart::Request, told)
    }

    /// Whether the totals can take an answer.
    pub open spec fn has_room(&self, input: u32, output: u32) -> bool {
        &&& self.total_input_tokens + input <= u32::MAX
        &&& self.total_output_tokens + output <= u32::MAX
    }

    /// Takes in an answer of the model.
    pub fn take_answer(&mut self, response: &ModelResponse) -> (r: (Answered, Vec<UiEvent>))
        requires
            old(self).has_room(response.input_tokens, response.output_tokens),
        ensures
            ({
                let v = old(self)@;
                let calls = client::call_views(response.tool_calls@);
                let after = RunView {
                    messages: with_answer(v.messages, response.text@, calls),
                    total_input_tokens: v.total_input_tokens + response.input_tokens as nat,
                    total_output_tokens: v.total_output_tokens + response.output_tokens as nat,
                    ..v
                };
                &&& r.0 == next_step(response.text@, calls)
                &&& final(self)@ == after
                &&& events::event_views(r.1@) == (if response.input_tokens > 0
                    || response.output_tokens > 0 {
                    seq![
                        EventView::TokenStats {
                            new_input: response.input_tokens as nat,
                            new_output: response.output_tokens as nat,
                            total_input: after.total_input_tokens,
                            total_output: after.total_output_tokens,
                            tool_calls: v.tool_call_count,
                        },
                    ]
                } else {
                    Seq::empty()
                })
            }),
    {
        let ghost v = self@;
        self.total_input_tokens = self.total_input_tokens + response.input_tokens;
        self.total_output_tokens = self.total_output_tokens + response.output_tokens;
        let mut told: Vec<UiEvent> = Vec::new();
        assert(events::event_views(told@) =~= Seq::<EventView>::empty());
        if response.input_tokens > 0 || response.output_tokens > 0 {
            let ev = UiEvent::TokenStats {
                _input: response.input_tokens,
                _output: response.output_tokens,
                total_input: self.total_input_tokens,
                total_output: self.total_output_tokens,
                tool_calls: self.tool_call_count,
            };
            push_event(&mut told, ev);
            assert(events::event_views(told@) =~= seq![ev@]);
        }
        let ghost calls = client::call_views(response.tool_calls@);
        assert(calls.len() == response.tool_calls@.len());
        let m = Message {
            role: "assistant".to_owned(),
            content: MessageContent::Text(without_thinking(response.text.as_str())),
            tool_calls: clone_calls(&response.tool_calls),
        };
        self.messages.push(m);
        assert(client::message_views(self.messages@) =~= v.messages.push(m@));
        if response.tool_calls.len() > 0 {
            return (Answered::RunTools, told);
        }
        if holds(response.text.as_str(), "<invoke") && holds(
            response.text.as_str(),
            "</invoke>",
        ) {
            let ghost before = client::message_views(self.messages@);
            let fix = plain_message(
                "user",
                "You used XML <invoke> tool syntax instead of JSON tool calls. Use the JSON tool_calls format provided in the API — do not emit XML. Retry your intended action now using the correct format.".to_owned(),
            );
            self.messages.push(fix);
            assert(client::message_views(self.messages@) =~= before.push(fix@));
            return (Answered::Retry, told);
        }
        (Answered::Done, told)
    }

    /// Counts a call that ran.
    pub fn count_call(&mut self)
        requires
            old(self)@.tool_call_count < usize::MAX,
        ensures
            final(self)@ == (RunView {
                tool_call_count: old(self)@.tool_call_count + 1,
                ..old(self)@
            }),
    {
        self.tool_call_count = self.tool_call_count + 1;
    }

    /// Takes in the results of a round of calls.
    pub fn take_results(&mut self, results: Vec<ContentPart>) -> (r: UiEvent)
        ensures
            ({
                let v = old(self)@;
                &&& final(self)@ == (RunView {
                    messages: consumed::settled(
                        v.messages.push(
                            MessageView {
                                role: "tool"@,
                                content: ContentView::Parts(client::part_views(results@)),
                                tool_calls: Seq::empty(),
                            },
                        ),
                    ),
                    ..v
                })
                &&& r@ == (EventView::TokenStats {
                    new_input: 0,
                    new_output: 0,
                    total_input: v.total_input_tokens,
                    total_output: v.total_output_tokens,
                    tool_calls: v.tool_call_count,
                })
            }),
    {
        let ghost v = self@;
        let m = Message {
            role: "tool".to_owned(),
            content: MessageContent::Parts(results),
            tool_calls: Vec::new(),
        };
        assert(client::call_views(m.tool_calls@) =~= Seq::<ToolCallView>::empty());
        self.messages.push(m);
        assert(client::message_views(self.messages@) =~= v.messages.push(m@));
        strip_cot_from_last_assistant(&mut self.messages);
        UiEvent::TokenStats {
            _input: 0,
            _output: 0,
            total_input: self.total_input_tokens,
            total_output: self.total_output_tokens,
            tool_calls: self.tool_call_count,
        }
    }

    /// What is told when a task is done.
    pub fn done(&self, duration_secs: u32, cwd: &str) -> (r: (UiEvent, UiEvent))
        ensures
            r.0@ == (EventView::ContextUpdate {
                used: budget::capped(
                    budget::messages_cost(self@.messages) + self@.system_tokens,
                ),
                total: self@.total_context,
                compressed: false,
            }),
            r.1@ == (EventView::AgentDone {
                input_tokens: self@.total_input_tokens,
                output_tokens: self@.total_output_tokens,
                tool_calls: self@.tool_call_count,
                compressed_count: history::shortened(self@.history),
                duration_secs: duration_secs as nat,
                cwd: cwd@,
            }),
    {
        let used: usize = estimate_messages(&self.messages).saturating_add(self.system_tokens);
        (
            UiEvent::ContextUpdate {
                used,
                total: self.budget.total_context(),
                compressed: false,
            },
            UiEvent::AgentDone {
                input_tokens: self.total_input_tokens,
                output_tokens: self.total_output_tokens,
                tool_calls: self.tool_call_count,
                compressed_count: self.history.compressed_count(),
                duration_secs,
                cwd: cwd.to_owned(),
            },
        )
    }
}

/// Whether the turn that would only say that the work is done can be left
/// out: files were written, nothing ran whose output the model must see, and
/// nothing went wrong.
pub fn _should_skip_done_turn(
    mutated_files_nonempty: bool,
    any_bash_or_ask: bool,
    any_error: bool,
) -> (r: bool)
    ensures
        r == (mutated_files_nonempty && !any_bash_or_ask && !any_error),
{
    mutated_files_nonempty && !any_bash_or_ask && !any_error
}

// ── Quick mode ───────────────────────────────────────────────────────────────

pub open spec fn quick_names() -> Seq<Seq<char>> {
    seq!["edit_file"@, "read_file"@, "bash"@]
}

pub open spec fn quick_only(ts: Seq<Tool>) -> Seq<Tool>
    decreases ts.len(),
{
    if ts.len() == 0 {
        Seq::empty()
    } else if quick_names().contains(ts.last().name@) {
        quick_only(ts.drop_last()).push(ts.last())
    } else {
        quick_only(ts.drop_last())
    }
}

/// The tools that quick mode offers.
pub fn quick_tools(all: Vec<Tool>) -> (r: Vec<Tool>)
    ensures
        r@ == quick_only(all@),
{
    let names = ["edit_file", "read_file", "bash"];
    assert(text::texts(names@) =~= quick_names());
    let ghost total = all@;
    let mut rest = all;
    let mut out: Vec<Tool> = Vec::new();
    let ghost mut taken: int = 0;
    while rest.len() > 0
        invariant
            text::texts(names@) == quick_names(),
            0 <= taken <= total.len(),
            rest@ == total.skip(taken),
            out@ == quick_only(total.take(taken)),
        decreases rest.len(),
    {
        let t = rest.remove(0);
        proof {
            assert(t == total[taken]);
            assert(total.take(taken + 1).drop_last() =~= total.take(taken));
            assert(rest@ =~= total.skip(taken + 1));
        }
        if one_of(t.name.as_str(), &names) {
            out.push(t);
        }
        proof {
            taken = taken + 1;
        }
    }
    assert(total.take(taken) =~= total);
    out
}

/// The one message of quick mode.
pub fn quick_messages(task: &str) -> (r: Vec<Message>)
    ensures
        client::message_views(r@) == seq![client::text_message("user"@, task@)],
{
    let mut out: Vec<Message> = Vec::new();
    out.push(plain_message("user", task.to_owned()));
    assert(client::message_views(out@) =~= seq![out@[0]@]);
    out
}

/// The one call of quick mode, if the model made any.
pub fn quick_call(response: &ModelResponse) -> (r: Option<&ToolCall>)
    ensures
        match r {
            Some(c) => response.tool_calls@.len() > 0 && *c == response.tool_calls@[0],
            None => response.tool_calls@.len() == 0,
        },
{
    if response.tool_calls.len() > 0 {
        Some(&response.tool_calls[0])
    } else {
        None
    }
}

pub open spec fn thirty_lines(raw: Seq<char>) -> Seq<char> {
    let ls = pieces::lines(raw);
    pieces::join(
        if ls.len() > 30 {
            ls.take(30)
        } else {
            ls
        },
        "\n"@,
    )
}

/// What quick mode tells of its one call.
pub fn quick_result(raw: &str) -> (r: UiEvent)
    ensures
        r@ == (EventView::ToolResult { summary: thirty_lines(raw@) }),
{
    let mut ls = lines_of(raw);
    let ghost lv = text::views(ls@);
    assert(lv.len() == ls@.len());
    if ls.len() > 30 {
        ls.truncate(30);
        assert(text::views(ls@) =~= lv.take(30));
    }
    UiEvent::ToolResult { summary: join_with(&ls, "\n") }
}

/// What quick mode tells of the tokens it used, and at its end.
pub fn quick_done(response: &ModelResponse, duration_secs: u32, cwd: &str) -> (r: (
    UiEvent,
    UiEvent,
))
    ensures
        r.0@ == (EventView::TokenStats {
            new_input: response.input_tokens as nat,
            new_output: response.output_tokens as nat,
            total_input: response.input_tokens as nat,
            total_output: response.output_tokens as nat,
            tool_calls: 0,
        }),
        r.1@ == (EventView::AgentDone {
            input_tokens: response.input_tokens as nat,
            output_tokens: response.output_tokens as nat,
            tool_calls: if response.tool_calls@.len() > 0 {
                1
            } else {
                0
            },
            compressed_count: 0,
            duration_secs: duration_secs as nat,
            cwd: cwd@,
        }),
{
    let calls: usize = if response.tool_calls.len() > 0 {
        1
    } else {
        0
    };
    (
        UiEvent::TokenStats {
            _input: response.input_tokens,
            _output: response.output_tokens,
            total_input: response.input_tokens,
            total_output: response.output_tokens,
            tool_calls: 0,
        },
        UiEvent::AgentDone {
            input_tokens: response.input_tokens,
            output_tokens: response.output_tokens,
            tool_calls: calls,
            compressed_count: 0,
            duration_secs,
            cwd: cwd.to_owned(),
        },
    )
}

// ── Laws of a run ────────────────────────────────────────────────────────────

/// The task stands at the end of what the model sees first, and stays there
/// whatever the budget drops on the first turn.
pub proof fn task_is_seen(
    intro: Seq<MessageView>,
    prior: Seq<TurnView>,
    task: Seq<char>,
    attached: Seq<Seq<char>>,
    system: nat,
    threshold: nat,
)
    ensures
        ({
            let after = budget::enforced(opening(intro, prior, task, attached), system, threshold);
            after.len() > 0 && after.last() == client::text_message(
                "user"@,
                user_message(task, attached),
            )
        }),
{
    let ms = opening(intro, prior, task, attached);
    budget::tail_is_kept(ms, system, threshold, 0);
    reveal_strlit("user");
    reveal_strlit("tool");
    assert("user"@[0] != "tool"@[0]);
    let after = budget::enforced(ms, system, threshold);
    assert(ms.last() == ms[ms.len() - 1]);
    assert(after.last() == after[after.len() - 1]);
}

/// No more earlier turns than the limit are told of, in two messages each,
/// and those are the newest.
pub proof fn prior_is_bounded(ts: Seq<TurnView>, i: int)
    requires
        0 <= i < last_turns(ts).len(),
    ensures
        last_turns(ts).len() <= MAX_PRIOR_TURNS,
        prior_messages(last_turns(ts)).len() == 2 * last_turns(ts).len(),
        prior_messages(last_turns(ts)).subrange(2 * i, 2 * i + 2) == turn_messages(
            ts[ts.len() - last_turns(ts).len() + i],
        ),
{
    prior_pair(last_turns(ts), i);
}

proof fn prior_pair(ts: Seq<TurnView>, i: int)
    requires
        0 <= i < ts.len(),
    ensures
        prior_messages(ts).len() == 2 * ts.len(),
        prior_messages(ts).subrange(2 * i, 2 * i + 2) == turn_messages(ts[i]),
    decreases ts.len(),
{
    let before = prior_messages(ts.drop_last());
    if ts.len() > 1 {
        prior_pair(
            ts.drop_last(),
            if i < ts.len() - 1 {
                i
            } else {
                0
            },
        );
    } else {
        assert(ts.drop_last().len() == 0);
    }
    if i < ts.len() - 1 {
        assert(prior_messages(ts).subrange(2 * i, 2 * i + 2) =~= before.subrange(
            2 * i,
            2 * i + 2,
        ));
    } else {
        assert(prior_messages(ts).subrange(2 * i, 2 * i + 2) =~= turn_messages(ts[i]));
    }
}

/// An answer without tags of reasoning is kept word for word.
pub proof fn plain_answer_is_kept(
    ms: Seq<MessageView>,
    answer: Seq<char>,
    calls: Seq<ToolCallView>,
)
    requires
        !text::contains(answer, "<think>"@),
    ensures
        with_answer(ms, answer, calls)[ms.len() as int].content == ContentView::Text(answer),
{
    think::plain_is_answer(answer);
}

/// The conventions are those of the first file that is there and is not blank.
pub proof fn first_conventions_count(files: Seq<(Seq<char>, Option<Seq<char>>)>, i: int)
    requires
        0 <= i <= files.len(),
        forall|k: int|
            0 <= k < i ==> ((#[trigger] files[k]).1 matches Some(c) ==> text::trim(c).len() == 0),
    ensures
        i == files.len() ==> conventions_in(files) is None,
        i < files.len() ==> (files[i].1 matches Some(c) ==> text::trim(c).len() > 0
            ==> conventions_in(files) == Some(
            "\n\n# Project conventions ("@ + files[i].0 + ")\n\n"@ + text::trim(c),
        )),
    decreases files.len(),
{
    if i > 0 {
        let t = files.skip(1);
        assert forall|k: int| 0 <= k < i - 1 implies ((
        #[trigger] t[k]).1 matches Some(c) ==> text::trim(c).len() == 0) by {
            assert(t[k] == files[k + 1]);
        }
        first_conventions_count(t, i - 1);
        assert(files[0].1 matches Some(c) ==> text::trim(c).len() == 0);
        if i < files.len() {
            assert(t[i - 1] == files[i]);
        }
    }
}

/// Each attached file is hinted at on a line of its own, in its order.
pub proof fn attached_files_are_listed(attached: Seq<Seq<char>>)
    requires
        forall|k: int|
            0 <= k < attached.len() ==> !(#[trigger] attached[k]).contains('\n') && attached[k].len() > 0
                && attached[k].last() != '\r',
    ensures
        pieces::lines(file_hints(attached)) == attached.map_values(|f: Seq<char>| "- "@ + f),
        attached.len() > 0 ==> file_hints(attached).len() > 0 && file_hints(attached).last() == '\n',
    decreases attached.len(),
{
    reveal_strlit("- ");
    reveal_strlit("\n");
    let show = |f: Seq<char>| "- "@ + f;
    if attached.len() > 0 {
        let t = attached.drop_last();
        let f = attached.last();
        assert forall|k: int| 0 <= k < t.len() implies !(#[trigger] t[k]).contains('\n') && t[k].len()
            > 0 && t[k].last() != '\r' by {
            assert(t[k] == attached[k]);
        }
        assert(attached[attached.len() - 1] == f);
        attached_files_are_listed(t);
        let line = "- "@ + f;
        if line.contains('\n') {
            let i = line.index_of('\n');
            if i >= 2 {
                assert(f[i - 2] == '\n');
            }
        }
        assert(line.last() == f.last());
        let none = Seq::<char>::empty();
        pieces::line_ends_are_dropped(line, none);
        let b = line + "\n"@;
        assert(b + none =~= b);
        assert(pieces::lines(b) =~= seq![line]);
        pieces::lines_apart(file_hints(t), b);
        assert(file_hints(attached) =~= file_hints(t) + b);
        assert(attached.map_values(show) =~= t.map_values(show).push(line));
    } else {
        assert(pieces::lines(file_hints(attached)) =~= Seq::empty());
        assert(attached.map_values(show) =~= Seq::empty());
    }
}

/// In quick mode the model gets the tools that read, edit and run commands,
/// and no others.
pub proof fn quick_tools_are_three(ts: Seq<Tool>)
    ensures
        quick_only(ts) == ts.filter(
            |t: Tool| t.name@ == "edit_file"@ || t.name@ == "read_file"@ || t.name@ == "bash"@,
        ),
    decreases ts.len(),
{
    reveal(Seq::filter);
    if ts.len() > 0 {
        quick_tools_are_three(ts.drop_last());
        let q = quick_names();
        assert(q.len() == 3);
        assert(q[0] == "edit_file"@ && q[1] == "read_file"@ && q[2] == "bash"@);
    }
}

/// Calls are run; an answer that spells calls out is asked for again; any
/// other answer ends the task.
pub proof fn answers_lead_on(answer: Seq<char>, calls: Seq<ToolCallView>, a: Seq<char>, b: Seq<char>, c: Seq<char>)
    ensures
        calls.len() > 0 ==> next_step(answer, calls) == Answered::RunTools,
        next_step(a + "<invoke"@ + b + "</invoke>"@ + c, Seq::empty()) == Answered::Retry,
        calls.len() == 0 && (!text::contains(answer, "<invoke"@) || !text::contains(
            answer,
            "</invoke>"@,
        )) ==> next_step(answer, calls) == Answered::Done,
{
    let s = a + "<invoke"@ + b + "</invoke>"@ + c;
    let p = "<invoke"@;
    let q = "</invoke>"@;
    let n = a.len() as int;
    assert(s.subrange(n, n + p.len()) =~= p);
    assert(text::occurs_at(s, p, n));
    let m = n + p.len() + b.len();
    assert(s.subrange(m, m + q.len()) =~= q);
    assert(text::occurs_at(s, q, m));
}

/// At most three turns of the past are told again, the last ones, each cut to
/// three hundred characters of the question and five hundred of the answer.
pub proof fn last_three_turns_are_told(ts: Seq<TurnView>)
    ensures
        ts.len() <= 3 ==> last_turns(ts) == ts,
        ts.len() > 3 ==> last_turns(ts) == ts.subrange(ts.len() - 3, ts.len() as int),
        forall|t: TurnView|
            #![trigger turn_messages(t)]
            turn_messages(t).len() == 2 && turn_messages(t)[0].content == ContentView::Text(
                if t.user_message.len() <= 300 {
                    t.user_message
                } else {
                    t.user_message.take(300)
                },
            ) && turn_messages(t)[1].content == ContentView::Text(
                if t.agent_response.len() <= 500 {
                    t.agent_response
                } else {
                    t.agent_response.take(500)
                },
            ),
{
    assert(ts.len() > 3 ==> ts.skip(ts.len() - 3) =~= ts.subrange(ts.len() - 3, ts.len() as int));
}

} // verus!
