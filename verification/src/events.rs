//! What happens during a run, and how it is told on a plain terminal.

use crate::number;
use crate::number::{decimal_of, decimal_usize};
use crate::pieces;
use crate::pieces::first_line_of;
use crate::text;
use crate::text::{count, trimmed};
use vstd::prelude::*;

verus! {

/// Something that happens during a run.
#[derive(Debug)]
pub enum UiEvent {
    /// A piece of the answer.
    Chunk(String),
    /// A piece of the reasoning.
    ThinkingChunk(String),
    ToolCall { name: String, args_summary: String },
    ToolResult { summary: String },
    /// A file came from the cache.
    CacheHit { path: String, lines: usize },
    /// A call was made once too often.
    LoopWarning { tool_name: String },
    /// The conversation was compressed.
    BudgetWarning,
    /// No more tools may be called.
    ToolBudgetHit { limit: usize },
    AgentDone {
        input_tokens: u32,
        output_tokens: u32,
        tool_calls: usize,
        compressed_count: usize,
        duration_secs: u32,
        cwd: String,
    },
    AgentError(String),
    TokenStats {
        _input: u32,
        _output: u32,
        total_input: u32,
        total_output: u32,
        tool_calls: usize,
    },
    /// How full the context is.
    ContextUpdate { used: usize, total: u32, compressed: bool },
    HookOutput { event: String, output: String, exit_code: i32 },
    GitChanges { stat: String, checkpoint_hash: Option<String>, files_changed: usize },
    GitAutoCommit { message: String },
    GitError(String),
    SystemMsg(String),
}

/// What a `UiEvent` says.
pub enum EventView {
    Chunk(Seq<char>),
    ThinkingChunk(Seq<char>),
    ToolCall { name: Seq<char>, args_summary: Seq<char> },
    ToolResult { summary: Seq<char> },
    CacheHit { path: Seq<char>, lines: nat },
    LoopWarning { tool_name: Seq<char> },
    BudgetWarning,
    ToolBudgetHit { limit: nat },
    AgentDone {
        input_tokens: nat,
        output_tokens: nat,
        tool_calls: nat,
        compressed_count: nat,
        duration_secs: nat,
        cwd: Seq<char>,
    },
    AgentError(Seq<char>),
    TokenStats {
        new_input: nat,
        new_output: nat,
        total_input: nat,
        total_output: nat,
        tool_calls: nat,
    },
    ContextUpdate { used: nat, total: nat, compressed: bool },
    HookOutput { event: Seq<char>, output: Seq<char>, exit_code: int },
    GitChanges { stat: Seq<char>, checkpoint_hash: Option<Seq<char>>, files_changed: nat },
    GitAutoCommit { message: Seq<char> },
    GitError(Seq<char>),
    SystemMsg(Seq<char>),
}

impl View for UiEvent {
    type V = EventView;

    open spec fn view(&self) -> EventView {
        match self {
            UiEvent::Chunk(c) => EventView::Chunk(c@),
            UiEvent::ThinkingChunk(c) => EventView::ThinkingChunk(c@),
            UiEvent::ToolCall { name, args_summary } => EventView::ToolCall {
                name: name@,
                args_summary: args_summary@,
            },
            UiEvent::ToolResult { summary } => EventView::ToolResult { summary: summary@ },
            UiEvent::CacheHit { path, lines } => EventView::CacheHit {
                path: path@,
                lines: *lines as nat,
            },
            UiEvent::LoopWarning { tool_name } => EventView::LoopWarning { tool_name: tool_name@ },
            UiEvent::BudgetWarning => EventView::BudgetWarning,
            UiEvent::ToolBudgetHit { limit } => EventView::ToolBudgetHit { limit: *limit as nat },
            UiEvent::AgentDone {
                input_tokens,
                output_tokens,
                tool_calls,
                compressed_count,
                duration_secs,
                cwd,
            } => EventView::AgentDone {
                input_tokens: *input_tokens as nat,
                output_tokens: *output_tokens as nat,
                tool_calls: *tool_calls as nat,
                compressed_count: *compressed_count as nat,
                duration_secs: *duration_secs as nat,
                cwd: cwd@,
            },
            UiEvent::AgentError(e) => EventView::AgentError(e@),
            UiEvent::TokenStats { _input, _output, total_input, total_output, tool_calls } =>
                EventView::TokenStats {
                new_input: *_input as nat,
                new_output: *_output as nat,
                total_input: *total_input as nat,
                total_output: *total_output as nat,
                tool_calls: *tool_calls as nat,
            },
            UiEvent::ContextUpdate { used, total, compressed } => EventView::ContextUpdate {
                used: *used as nat,
                total: *total as nat,
                compressed: *compressed,
            },
            UiEvent::HookOutput { event, output, exit_code } => EventView::HookOutput {
                event: event@,
                output: output@,
                exit_code: *exit_code as int,
            },
            UiEvent::GitChanges { stat, checkpoint_hash, files_changed } => EventView::GitChanges {
                stat: stat@,
                checkpoint_hash: text::opt_text(*checkpoint_hash),
                files_changed: *files_changed as nat,
            },
            UiEvent::GitAutoCommit { message } => EventView::GitAutoCommit { message: message@ },
            UiEvent::GitError(e) => EventView::GitError(e@),
            UiEvent::SystemMsg(m) => EventView::SystemMsg(m@),
        }
    }
}

pub open spec fn event_views(v: Seq<UiEvent>) -> Seq<EventView> {
    Seq::new(v.len(), |i: int| v[i]@)
}

/// What a plain terminal shows of an event. `glyph` stands for the tool, and
/// the two numbers are the tokens that were used so far.
pub open spec fn plain(
    ev: EventView,
    glyph: Seq<char>,
    input: nat,
    output: nat,
) -> Seq<char> {
    match ev {
        EventView::Chunk(c) => c,
        EventView::ToolCall { name, args_summary } => "\n  "@ + glyph + " "@ + name + " "@
            + args_summary + "\n"@,
        EventView::ToolResult { summary } => "    → "@ + pieces::first_line(summary) + "\n"@,
        EventView::CacheHit { path, lines } => "    ↩ cache  "@ + path + "\n"@,
        EventView::LoopWarning { tool_name } => "  ⚠ loop detected on "@ + tool_name + "\n"@,
        EventView::BudgetWarning => "  ⟳ context compressed\n"@,
        EventView::ToolBudgetHit { limit } => "\n  ■ tool call limit ("@ + number::decimal(limit)
            + ") reached\n"@,
        EventView::AgentDone {
            input_tokens,
            output_tokens,
            tool_calls,
            compressed_count,
            duration_secs,
            cwd,
        } => "\n\n  ✓ in "@ + number::decimal(input_tokens) + " out "@ + number::decimal(
            output_tokens,
        ) + "  tools "@ + number::decimal(tool_calls) + (if compressed_count > 0 {
            "  "@ + number::decimal(compressed_count) + " outputs truncated"@
        } else {
            Seq::empty()
        }) + "\n"@,
        EventView::AgentError(e) => if input > 0 || output > 0 {
            "\n  ✗ "@ + e + "  (partial: in "@ + number::decimal(input) + " out "@
                + number::decimal(output) + ")\n"@
        } else {
            "\n  ✗ "@ + e + "\n"@
        },
        EventView::HookOutput { event, output, exit_code } => if text::trim(output).len() > 0 {
            "  ⚙ "@ + event + (if exit_code == 0 {
                " ✓: "@
            } else {
                " ✗: "@
            }) + pieces::first_line(output) + "\n"@
        } else {
            Seq::empty()
        },
        EventView::SystemMsg(m) => "  "@ + m + "\n"@,
        _ => Seq::empty(),
    }
}

fn line3(a: &str, b: &str, c: &str) -> (r: String)
    ensures
        r@ == a@ + b@ + c@,
{
    let mut s = a.to_owned();
    s.append(b);
    s.append(c);
    s
}

/// What a plain terminal shows of an event. Keeps the tokens that were used
/// so far.
pub fn print_event_plain(
    ev: &UiEvent,
    glyph: &str,
    accum_input: &mut u32,
    accum_output: &mut u32,
) -> (r: String)
    ensures
        r@ == plain(ev@, glyph@, *old(accum_input) as nat, *old(accum_output) as nat),
        match ev@ {
            EventView::TokenStats { new_input, new_output, total_input, total_output, tool_calls } =>
                *final(accum_input) == total_input && *final(accum_output) == total_output,
            _ => *final(accum_input) == *old(accum_input) && *final(accum_output) == *old(
                accum_output,
            ),
        },
{
    match ev {
        UiEvent::Chunk(c) => c.clone(),
        UiEvent::ToolCall { name, args_summary } => {
            let mut s = line3("\n  ", glyph, " ");
            s.append(name.as_str());
            s.append(" ");
            s.append(args_summary.as_str());
            s.append("\n");
            s
        },
        UiEvent::ToolResult { summary } => line3(
            "    → ",
            first_line_of(summary.as_str()).as_str(),
            "\n",
        ),
        UiEvent::CacheHit { path, lines } => line3("    ↩ cache  ", path.as_str(), "\n"),
        UiEvent::LoopWarning { tool_name } => line3(
            "  ⚠ loop detected on ",
            tool_name.as_str(),
            "\n",
        ),
        UiEvent::BudgetWarning => "  ⟳ context compressed\n".to_owned(),
        UiEvent::ToolBudgetHit { limit } => line3(
            "\n  ■ tool call limit (",
            decimal_usize(*limit).as_str(),
            ") reached\n",
        ),
        UiEvent::AgentDone {
            input_tokens,
            output_tokens,
            tool_calls,
            compressed_count,
            duration_secs,
            cwd,
        } => {
            let mut s = line3("\n\n  ✓ in ", decimal_of(*input_tokens as u64).as_str(), " out ");
            s.append(decimal_of(*output_tokens as u64).as_str());
            s.append("  tools ");
            s.append(decimal_usize(*tool_calls).as_str());
            let ghost base = s@;
            if *compressed_count > 0 {
                let more = line3(
                    "  ",
                    decimal_usize(*compressed_count).as_str(),
                    " outputs truncated",
                );
                s.append(more.as_str());
            } else {
                assert(base + Seq::<char>::empty() =~= base);
            }
            s.append("\n");
            s
        },
        UiEvent::AgentError(e) => {
            let mut s = "\n  ✗ ".to_owned();
            s.append(e.as_str());
            if *accum_input > 0 || *accum_output > 0 {
                s.append("  (partial: in ");
                s.append(decimal_of(*accum_input as u64).as_str());
                s.append(" out ");
                s.append(decimal_of(*accum_output as u64).as_str());
                s.append(")\n");
            } else {
                s.append("\n");
            }
            s
        },
        UiEvent::TokenStats { _input, _output, total_input, total_output, tool_calls } => {
            *accum_input = *total_input;
            *accum_output = *total_output;
            String::new()
        },
        UiEvent::HookOutput { event, output, exit_code } => {
            if count(trimmed(output.as_str()).as_str()) > 0 {
                let mark = if *exit_code == 0 {
                    " ✓: "
                } else {
                    " ✗: "
                };
                let mut s = line3("  ⚙ ", event.as_str(), mark);
                s.append(first_line_of(output.as_str()).as_str());
                s.append("\n");
                s
            } else {
                String::new()
            }
        },
        UiEvent::SystemMsg(m) => line3("  ", m.as_str(), "\n"),
        _ => String::new(),
    }
}

} // verus!
