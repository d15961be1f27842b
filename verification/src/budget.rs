//! The token budget of a conversation, kept before each request.

use crate::client;
use crate::client::{ContentPart, ContentView, Message, MessageContent, MessageView, PartView, ToolCall, ToolCallView};
use crate::number;
use crate::number::{byte_len, decimal_usize, front_of_bytes};
use crate::pieces;
use crate::pieces::{before_first, first_line_of, lines_of};
use crate::results;
use crate::results::{last_tool_at, rewrite};
use crate::text;
use crate::text::{begins_with, count, holds, listed, same, take_chars, trim_back_by, trim_front_by, trimmed, CharSet};
use vstd::prelude::*;

verus! {

broadcast use crate::text::views_push;

/// The id of the call that shows the project index at the start. Messages at
/// the head with this id are never dropped.
pub const PIE_INJECTION_ID: &'static str = "pie_ctx_0";

// ── Shares of the context ────────────────────────────────────────────────────

/// The gap between neighbouring numbers of 24 significant bits near `n`,
/// `p` at least.
pub open spec fn gap(n: nat, p: nat) -> nat
    decreases n - p,
{
    if p == 0 || 2 * p > n || n / p < 0x100_0000 {
        p
    } else {
        gap(n, 2 * p)
    }
}

/// `n` rounded to 24 significant bits as single-precision numbers are: to
/// the nearest, from the middle to the even one.
pub open spec fn rounded(n: nat) -> nat {
    let p = gap(n, 1);
    let q = n / p;
    let r = n % p;
    if 2 * r > p || (2 * r == p && q % 2 == 1) {
        (q + 1) * p
    } else {
        q * p
    }
}

/// The share of `n` that is kept for the answer: fifteen percent, in single
/// precision.
pub open spec fn headroom(n: nat) -> nat {
    rounded(rounded(n) * 10066330) / 0x400_0000
}

/// Eighty percent of `n`, in single precision.
pub open spec fn four_fifths(n: nat) -> nat {
    rounded(rounded(n) * 13421773) / 0x100_0000
}

fn gap_of(n: u64) -> (p: u64)
    requires
        n < 0x100_0000_0000_0000,
    ensures
        p == gap(n as nat, 1),
        0 < p,
        p == 1 || p * 0x80_0000 <= n,
        n / p < 0x100_0000,
{
    let mut p: u64 = 1;
    while n / p >= 0x100_0000
        invariant
            n < 0x100_0000_0000_0000,
            0 < p,
            p == 1 || p * 0x80_0000 <= n,
            gap(n as nat, 1) == gap(n as nat, p as nat),
        decreases n - p,
    {
        assert(p * 0x100_0000 <= n) by (nonlinear_arith)
            requires
                n / p >= 0x100_0000,
                0 < p,
        ;
        p = 2 * p;
    }
    p
}

fn round_off(n: u64) -> (r: u64)
    requires
        n < 0x100_0000_0000_0000,
    ensures
        r == rounded(n as nat),
        0x80_0000 * (r - n) <= n,
{
    let p: u64 = gap_of(n);
    let q: u64 = n / p;
    let r: u64 = n % p;
    assert(q * p + r == n && q * p <= n) by (nonlinear_arith)
        requires
            q == n / p,
            r == n % p,
            0 < p,
    ;
    if 2 * r > p || (2 * r == p && q % 2 == 1) {
        assert((q + 1) * p == q * p + p) by (nonlinear_arith);
        (q + 1) * p
    } else {
        q * p
    }
}

/// How the context is split, in tokens.
#[derive(Debug)]
pub struct BudgetConfig {
    pub total_context: u32,
    /// What is kept for the answer.
    pub response_headroom: u32,
}

impl BudgetConfig {
    pub fn from_context_tokens(context_tokens: u32) -> (r: Self)
        ensures
            r.total_context == context_tokens,
            r.response_headroom == headroom(context_tokens as nat),
    {
        let a: u64 = round_off(context_tokens as u64);
        let b: u64 = round_off(a * 10066330);
        BudgetConfig { total_context: context_tokens, response_headroom: (b / 0x400_0000) as u32 }
    }

    pub open spec fn usable_tokens(&self) -> nat {
        if self.total_context >= self.response_headroom {
            (self.total_context - self.response_headroom) as nat
        } else {
            0
        }
    }

    /// What a request may use.
    pub fn usable(&self) -> (r: u32)
        ensures
            r == self.usable_tokens(),
    {
        self.total_context.saturating_sub(self.response_headroom)
    }

    /// Above this the conversation is compressed.
    pub fn compression_threshold(&self) -> (r: u32)
        ensures
            r == four_fifths(self.usable_tokens()),
            r < u32::MAX,
    {
        let u: u32 = self.usable();
        let a: u64 = round_off(u as u64);
        let b: u64 = round_off(a * 13421773);
        (b / 0x100_0000) as u32
    }
}

// ── Estimates ────────────────────────────────────────────────────────────────

/// What a text costs: a token for four characters, and ten for the message.
pub open spec fn cost(s: Seq<char>) -> nat {
    s.len() / 4 + 10
}

pub fn estimate_tokens(s: &str) -> (n: usize)
    ensures
        n == cost(s@),
{
    count(s) / 4 + 10
}

pub open spec fn part_cost(p: PartView) -> nat {
    match p {
        PartView::Text(t) => cost(t),
        PartView::ToolResult(_, c) => cost(c),
    }
}

pub open spec fn parts_cost(ps: Seq<PartView>) -> nat
    decreases ps.len(),
{
    if ps.len() == 0 {
        0
    } else {
        parts_cost(ps.drop_last()) + part_cost(ps.last())
    }
}

pub open spec fn message_cost(m: MessageView) -> nat {
    match m.content {
        ContentView::Text(t) => cost(t),
        ContentView::Parts(ps) => parts_cost(ps),
    }
}

pub open spec fn messages_cost(ms: Seq<MessageView>) -> nat
    decreases ms.len(),
{
    if ms.len() == 0 {
        0
    } else {
        messages_cost(ms.drop_last()) + message_cost(ms.last())
    }
}

/// `n`, or the largest machine number.
pub open spec fn capped(n: nat) -> nat {
    if n > usize::MAX {
        usize::MAX as nat
    } else {
        n
    }
}

fn estimate_message(m: &Message) -> (n: usize)
    ensures
        n == capped(message_cost(m@)),
{
    match &m.content {
        MessageContent::Text(t) => estimate_tokens(t.as_str()),
        MessageContent::Parts(parts) => {
            let ghost ps = client::part_views(parts@);
            let mut sum: usize = 0;
            let mut i: usize = 0;
            assert(ps.take(0) =~= Seq::<PartView>::empty());
            while i < parts.len()
                invariant
                    i <= parts.len(),
                    ps == client::part_views(parts@),
                    sum == capped(parts_cost(ps.take(i as int))),
                decreases parts.len() - i,
            {
                let c: usize = match &parts[i] {
                    ContentPart::Text { text } => estimate_tokens(text.as_str()),
                    ContentPart::ToolResult { tool_use_id, content } => estimate_tokens(
                        content.as_str(),
                    ),
                };
                assert(ps.take(i + 1).drop_last() =~= ps.take(i as int));
                assert(ps.take(i + 1).last() == parts@[i as int]@);
                sum = sum.saturating_add(c);
                i += 1;
            }
            assert(ps.take(i as int) =~= ps);
            sum
        },
    }
}

/// What the messages cost together.
pub fn estimate_messages(messages: &Vec<Message>) -> (n: usize)
    ensures
        n == capped(messages_cost(client::message_views(messages@))),
{
    let ghost ms = client::message_views(messages@);
    let mut sum: usize = 0;
    let mut i: usize = 0;
    assert(ms.take(0) =~= Seq::<MessageView>::empty());
    while i < messages.len()
        invariant
            i <= messages.len(),
            ms == client::message_views(messages@),
            sum == capped(messages_cost(ms.take(i as int))),
        decreases messages.len() - i,
    {
        assert(ms.take(i + 1).drop_last() =~= ms.take(i as int));
        assert(ms.take(i + 1).last() == messages@[i as int]@);
        sum = sum.saturating_add(estimate_message(&messages[i]));
        i += 1;
    }
    assert(ms.take(i as int) =~= ms);
    sum
}

// ── Compression ──────────────────────────────────────────────────────────────

/// How many of the lines hold `p`.
pub open spec fn lines_with(ls: Seq<Seq<char>>, p: Seq<char>) -> nat
    decreases ls.len(),
{
    if ls.len() == 0 {
        0
    } else {
        lines_with(ls.drop_last(), p) + if text::contains(ls.last(), p) {
            1nat
        } else {
            0
        }
    }
}

/// How many lines of `s` hold `p`.
pub fn count_lines_with(s: &str, p: &str) -> (n: usize)
    ensures
        n == lines_with(pieces::lines(s@), p@),
{
    let ls = lines_of(s);
    let ghost lv = text::views(ls@);
    let mut n: usize = 0;
    let mut i: usize = 0;
    assert(lv.take(0) =~= Seq::<Seq<char>>::empty());
    while i < ls.len()
        invariant
            i <= ls.len(),
            lv == text::views(ls@),
            n == lines_with(lv.take(i as int), p@),
            n <= i,
        decreases ls.len() - i,
    {
        assert(lv.take(i + 1).drop_last() =~= lv.take(i as int));
        assert(lv.take(i + 1).last() == ls@[i as int]@);
        if holds(ls[i].as_str(), p) {
            n += 1;
        }
        i += 1;
    }
    assert(lv.take(i as int) =~= lv);
    n
}

/// The file that a header line like `[path — 10 lines]` names.
pub open spec fn header_path(first: Seq<char>) -> Seq<char> {
    text::trim_end_set(
        pieces::before_text(text::trim_start_set(first, CharSet::OneOf("[")), " —"@),
        CharSet::OneOf("]"),
    )
}

pub fn path_in_header(first: &str) -> (r: String)
    ensures
        r@ == header_path(first@),
{
    let inner = trim_front_by(first, CharSet::OneOf("["));
    let path = before_first(inner.as_str(), " —");
    trim_back_by(path.as_str(), CharSet::OneOf("]"))
}

/// A tool result in short: the file that was read, or the first line.
pub open spec fn compressed_content(content: Seq<char>) -> Seq<char> {
    let first = pieces::first_line(content);
    if text::begins(first, "["@) && text::contains(first, " — "@) {
        let path = text::trim(header_path(first));
        let n = lines_with(pieces::lines(content), " | "@);
        if n > 0 {
            "[content compressed — ✓ Read "@ + path + " ("@ + number::decimal(n)
                + " lines). Ask to recall if needed.]"@
        } else {
            "[content compressed — ✓ Read "@ + path + ". Ask to recall if needed.]"@
        }
    } else {
        first
    }
}

/// A tool result in short.
pub fn compress_tool_content(content: &str) -> (r: String)
    ensures
        r@ == compressed_content(content@),
{
    let first = first_line_of(content);
    if begins_with(first.as_str(), "[") && holds(first.as_str(), " — ") {
        let path = trimmed(path_in_header(first.as_str()).as_str());
        let n: usize = count_lines_with(content, " | ");
        let mut out = "[content compressed — ✓ Read ".to_owned();
        out.append(path.as_str());
        if n > 0 {
            out.append(" (");
            out.append(decimal_usize(n).as_str());
            out.append(" lines). Ask to recall if needed.]");
        } else {
            out.append(". Ask to recall if needed.]");
        }
        return out;
    }
    first
}

/// A long tool result in short; a short one as it is.
pub open spec fn shorter(id: Seq<char>, content: Seq<char>) -> Seq<char> {
    if number::width(content) <= 200 {
        content
    } else {
        compressed_content(content)
    }
}

/// The messages with all tool results but those of the last tool message
/// in short.
pub open spec fn compressed_results(ms: Seq<MessageView>) -> Seq<MessageView> {
    results::rewritten(
        ms,
        results::last_tool(ms) as int,
        |id: Seq<char>, content: Seq<char>| shorter(id, content),
    )
}

pub open spec fn calls_id(calls: Seq<ToolCallView>, id: Seq<char>) -> bool {
    exists|i: int| 0 <= i < calls.len() && (#[trigger] calls[i]).id == id
}

/// Whether one of the calls has the id.
pub fn has_tool_call_id(tool_calls: &Vec<ToolCall>, id: &str) -> (r: bool)
    ensures
        r == calls_id(client::call_views(tool_calls@), id@),
{
    let ghost cv = client::call_views(tool_calls@);
    let mut i: usize = 0;
    while i < tool_calls.len()
        invariant
            i <= tool_calls.len(),
            cv == client::call_views(tool_calls@),
            forall|k: int| 0 <= k < i ==> (#[trigger] cv[k]).id != id@,
        decreases tool_calls.len() - i,
    {
        assert(cv[i as int] == tool_calls@[i as int]@);
        if same(tool_calls[i].id.as_str(), id) {
            return true;
        }
        i += 1;
    }
    false
}

/// Whether the messages start with the project index.
pub open spec fn starts_with_index(ms: Seq<MessageView>) -> bool {
    ms.len() > 0 && ms[0].role == "assistant"@ && calls_id(ms[0].tool_calls, PIE_INJECTION_ID@)
}

/// How many messages at the head are never dropped.
pub open spec fn kept_head(ms: Seq<MessageView>) -> int {
    if starts_with_index(ms) {
        3
    } else {
        1
    }
}

/// The place of the first assistant message from `from` on and before `end`.
pub open spec fn first_assistant(ms: Seq<MessageView>, from: int, end: int) -> Option<int>
    decreases end - from,
{
    if from >= end {
        None
    } else if ms[from].role == "assistant"@ {
        Some(from)
    } else {
        first_assistant(ms, from + 1, end)
    }
}

/// The messages without their oldest turn: an assistant message and the tool
/// message that answers it. The head and the last four stay.
pub open spec fn without_oldest(ms: Seq<MessageView>) -> Seq<MessageView> {
    if ms.len() <= 5 {
        ms
    } else {
        match first_assistant(ms, kept_head(ms), ms.len() - 4) {
            Some(i) => if ms[i + 1].role != "tool"@ {
                ms.take(i) + ms.skip(i + 1)
            } else if i + 2 <= ms.len() - 4 {
                ms.take(i) + ms.skip(i + 2)
            } else {
                ms
            },
            None => ms,
        }
    }
}

/// The messages within the budget.
pub open spec fn enforced(ms: Seq<MessageView>, system: nat, threshold: nat) -> Seq<MessageView> {
    if messages_cost(ms) + system <= threshold {
        ms
    } else {
        let short = compressed_results(ms);
        if messages_cost(short) + system <= threshold {
            short
        } else {
            without_oldest(short)
        }
    }
}

/// Keeps a conversation within a context.
#[derive(Debug)]
pub struct Budget {
    pub config: BudgetConfig,
}

impl Budget {
    pub fn new(context_tokens: u32) -> (r: Self)
        ensures
            r.config.total_context == context_tokens,
            r.config.response_headroom == headroom(context_tokens as nat),
    {
        Budget { config: BudgetConfig::from_context_tokens(context_tokens) }
    }

    pub fn total_context(&self) -> (r: u32)
        ensures
            r == self.config.total_context,
    {
        self.config.total_context
    }

    /// Compresses the messages where they pass the threshold. Gives what they
    /// cost then, and whether they were compressed.
    pub fn enforce(&self, messages: &mut Vec<Message>, system_tokens: usize) -> (r: (usize, bool))
        ensures
            ({
                let ms = client::message_views(old(messages)@);
                let t = four_fifths(self.config.usable_tokens());
                let after = enforced(ms, system_tokens as nat, t);
                &&& client::message_views(final(messages)@) == after
                &&& r.0 == capped(messages_cost(after) + system_tokens as nat)
                &&& r.1 == (messages_cost(ms) + system_tokens > t)
            }),
    {
        let threshold: usize = self.config.compression_threshold() as usize;
        let current: usize = estimate_messages(messages).saturating_add(system_tokens);
        if current <= threshold {
            return (current, false);
        }
        self.compress_tool_results(messages);
        let shorter: usize = estimate_messages(messages).saturating_add(system_tokens);
        if shorter <= threshold {
            return (shorter, true);
        }
        self.trim_oldest_turns(messages);
        (estimate_messages(messages).saturating_add(system_tokens), true)
    }

    fn compress_tool_results(&self, messages: &mut Vec<Message>)
        ensures
            client::message_views(final(messages)@) == compressed_results(
                client::message_views(old(messages)@),
            ),
    {
        let end: usize = last_tool_at(messages);
        let short = |id: &str, content: &str| -> (r: Option<String>)
            ensures
                shorter(id@, content@) == (match r {
                    Some(t) => t@,
                    None => content@,
                })
            {
                if byte_len(content) <= 200 {
                    None
                } else {
                    Some(compress_tool_content(content))
                }
            };
        rewrite(messages, end, &short, Ghost(|id: Seq<char>, c: Seq<char>| shorter(id, c)));
    }

    fn trim_oldest_turns(&self, messages: &mut Vec<Message>)
        ensures
            client::message_views(final(messages)@) == without_oldest(
                client::message_views(old(messages)@),
            ),
    {
        let ghost ms = client::message_views(messages@);
        if messages.len() <= 5 {
            return;
        }
        assert(ms[0] == messages@[0]@);
        let pie_head = same(messages[0].role.as_str(), "assistant") && has_tool_call_id(
            &messages[0].tool_calls,
            PIE_INJECTION_ID,
        );
        let from: usize = if pie_head {
            3
        } else {
            1
        };
        let end: usize = messages.len() - 4;
        let mut i: usize = from;
        while i < end && !same(messages[i].role.as_str(), "assistant")
            invariant
                i >= from,
                end == messages.len() - 4,
                ms == client::message_views(messages@),
                first_assistant(ms, from as int, end as int) == first_assistant(
                    ms,
                    i as int,
                    end as int,
                ),
            decreases end - i,
        {
            assert(ms[i as int] == messages@[i as int]@);
            i += 1;
        }
        if i < end {
            assert(ms[i as int] == messages@[i as int]@);
            assert(ms[i + 1] == messages@[i + 1]@);
            let tool_follows = same(messages[i + 1].role.as_str(), "tool");
            if tool_follows && i + 2 > end {
                return;
            }
            messages.remove(i);
            if tool_follows {
                messages.remove(i);
            }
            assert(client::message_views(messages@) =~= without_oldest(ms));
        }
    }
}

// ── Laws of the budget ───────────────────────────────────────────────────────

proof fn first_assistant_bounds(ms: Seq<MessageView>, from: int, end: int)
    ensures
        match first_assistant(ms, from, end) {
            Some(i) => from <= i < end && ms[i].role == "assistant"@,
            None => true,
        },
    decreases end - from,
{
    if from < end && ms[from].role != "assistant"@ {
        first_assistant_bounds(ms, from + 1, end);
    }
}

/// Whether `b` is `a`, but for the results of tools.
pub open spec fn same_turn(a: MessageView, b: MessageView) -> bool {
    &&& a.role == b.role
    &&& a.tool_calls == b.tool_calls
    &&& a.role != "tool"@ ==> a == b
}

proof fn compressed_turns(ms: Seq<MessageView>)
    ensures
        compressed_results(ms).len() == ms.len(),
        forall|i: int|
            0 <= i < ms.len() ==> same_turn(ms[i], #[trigger] compressed_results(ms)[i]),
        starts_with_index(compressed_results(ms)) == starts_with_index(ms),
{
    reveal_strlit("assistant");
    reveal_strlit("tool");
    assert("assistant"@.len() != "tool"@.len());
}

/// Whatever is dropped, the head stays: the project index with its answer
/// and the task behind it, or the task alone.
pub proof fn head_is_kept(ms: Seq<MessageView>, system: nat, threshold: nat)
    requires
        ms.len() >= kept_head(ms),
    ensures
        ({
            let after = enforced(ms, system, threshold);
            &&& after.len() >= kept_head(ms)
            &&& forall|i: int| 0 <= i < kept_head(ms) ==> same_turn(ms[i], #[trigger] after[i])
        }),
{
    compressed_turns(ms);
    let short = compressed_results(ms);
    first_assistant_bounds(short, kept_head(short), short.len() - 4);
    assert(forall|i: int| 0 <= i < ms.len() ==> same_turn(ms[i], #[trigger] short[i]));
}

/// Whatever is dropped, the last four messages stay. The last answers of
/// tools stay whole.
pub proof fn tail_is_kept(ms: Seq<MessageView>, system: nat, threshold: nat, i: int)
    requires
        0 <= i < 4,
        i < ms.len(),
    ensures
        ({
            let after = enforced(ms, system, threshold);
            let m = ms[ms.len() - 1 - i];
            &&& after.len() > i
            &&& same_turn(m, after[after.len() - 1 - i])
            &&& ms.len() - 1 - i == results::last_tool(ms) ==> after[after.len() - 1 - i] == m
        }),
{
    compressed_turns(ms);
    let short = compressed_results(ms);
    first_assistant_bounds(short, kept_head(short), short.len() - 4);
    let at = ms.len() - 1 - i;
    assert(same_turn(ms[at], short[at]));
    let after = without_oldest(short);
    if let Some(d) = first_assistant(short, kept_head(short), short.len() - 4) {
        if short.len() > 5 {
            assert(after[after.len() - 1 - i] == short[at]);
        }
    }
}

/// The messages that neither the model nor a tool wrote.
pub open spec fn said(ms: Seq<MessageView>) -> Seq<MessageView>
    decreases ms.len(),
{
    if ms.len() == 0 {
        ms
    } else if ms.last().role == "assistant"@ || ms.last().role == "tool"@ {
        said(ms.drop_last())
    } else {
        said(ms.drop_last()).push(ms.last())
    }
}

proof fn said_apart(a: Seq<MessageView>, b: Seq<MessageView>)
    ensures
        said(a + b) == said(a) + said(b),
    decreases b.len(),
{
    if b.len() == 0 {
        assert(a + b =~= a);
        assert(said(a) + said(b) =~= said(a));
    } else {
        said_apart(a, b.drop_last());
        assert((a + b).drop_last() =~= a + b.drop_last());
        assert((a + b).last() == b.last());
        assert(said(a + b) =~= said(a) + said(b));
    }
}

proof fn said_again(ms: Seq<MessageView>, after: Seq<MessageView>)
    requires
        after.len() == ms.len(),
        forall|i: int| 0 <= i < ms.len() ==> same_turn(ms[i], #[trigger] after[i]),
    ensures
        said(after) == said(ms),
    decreases ms.len(),
{
    if ms.len() > 0 {
        assert(same_turn(ms[ms.len() - 1], after[ms.len() - 1]));
        assert forall|i: int| 0 <= i < ms.drop_last().len() implies same_turn(
            ms.drop_last()[i],
            #[trigger] after.drop_last()[i],
        ) by {
            assert(same_turn(ms[i], after[i]));
        }
        said_again(ms.drop_last(), after.drop_last());
    }
}

/// Whatever is dropped, all that the user said stays, in its order.
pub proof fn user_is_kept(ms: Seq<MessageView>, system: nat, threshold: nat)
    ensures
        said(enforced(ms, system, threshold)) == said(ms),
{
    compressed_turns(ms);
    let short = compressed_results(ms);
    said_again(ms, short);
    first_assistant_bounds(short, kept_head(short), short.len() - 4);
    if short.len() > 5 {
        if let Some(d) = first_assistant(short, kept_head(short), short.len() - 4) {
            let one = seq![short[d]];
            let two = seq![short[d], short[d + 1]];
            assert(one.drop_last() =~= Seq::<MessageView>::empty());
            assert(two.drop_last() =~= one);
            assert(short =~= short.take(d) + one + short.skip(d + 1));
            said_apart(short.take(d), one);
            said_apart(short.take(d) + one, short.skip(d + 1));
            said_apart(short.take(d), short.skip(d + 1));
            assert(one.last() == short[d]);
            assert(said(Seq::<MessageView>::empty()) =~= Seq::<MessageView>::empty());
            assert(said(one) =~= Seq::<MessageView>::empty());
            assert(said(short.take(d)) + said(one) =~= said(short.take(d)));
            if d + 2 <= short.len() - 4 && short[d + 1].role == "tool"@ {
                assert(short =~= short.take(d) + two + short.skip(d + 2));
                said_apart(short.take(d), two);
                said_apart(short.take(d) + two, short.skip(d + 2));
                said_apart(short.take(d), short.skip(d + 2));
                assert(said(two) =~= Seq::<MessageView>::empty());
                assert(said(short.take(d)) + said(two) =~= said(short.take(d)));
            }
        }
    }
}

/// Whether no result of a tool is longer in short than it is whole. A result
/// of few lines with a long path in its header can be.
pub open spec fn shorten_well(ps: Seq<PartView>) -> bool {
    forall|j: int|
        0 <= j < ps.len() ==> ((#[trigger] ps[j]) matches PartView::ToolResult(id, c) ==> shorter(
            id,
            c,
        ).len() <= c.len())
}

proof fn parts_pointwise(a: Seq<PartView>, b: Seq<PartView>)
    requires
        a.len() == b.len(),
        forall|j: int| 0 <= j < a.len() ==> part_cost(#[trigger] b[j]) <= part_cost(a[j]),
    ensures
        parts_cost(b) <= parts_cost(a),
    decreases a.len(),
{
    if a.len() > 0 {
        parts_pointwise(a.drop_last(), b.drop_last());
        assert(part_cost(b[b.len() - 1]) <= part_cost(a[a.len() - 1]));
    }
}

proof fn costs_apart(a: Seq<MessageView>, b: Seq<MessageView>)
    ensures
        messages_cost(a + b) == messages_cost(a) + messages_cost(b),
    decreases b.len(),
{
    if b.len() == 0 {
        assert(a + b =~= a);
    } else {
        costs_apart(a, b.drop_last());
        assert((a + b).drop_last() =~= a + b.drop_last());
    }
}

proof fn costs_pointwise(a: Seq<MessageView>, b: Seq<MessageView>)
    requires
        a.len() == b.len(),
        forall|i: int| 0 <= i < a.len() ==> message_cost(#[trigger] b[i]) <= message_cost(a[i]),
    ensures
        messages_cost(b) <= messages_cost(a),
    decreases a.len(),
{
    if a.len() > 0 {
        costs_pointwise(a.drop_last(), b.drop_last());
        assert(message_cost(b[b.len() - 1]) <= message_cost(a[a.len() - 1]));
    }
}

proof fn oldest_saves(ms: Seq<MessageView>)
    ensures
        messages_cost(without_oldest(ms)) <= messages_cost(ms),
{
    first_assistant_bounds(ms, kept_head(ms), ms.len() - 4);
    if ms.len() > 5 {
        if let Some(i) = first_assistant(ms, kept_head(ms), ms.len() - 4) {
            let n = if ms[i + 1].role != "tool"@ {
                i + 1
            } else {
                i + 2
            };
            assert(ms =~= ms.take(i) + ms.subrange(i, n) + ms.skip(n));
            costs_apart(ms.take(i), ms.subrange(i, n));
            costs_apart(ms.take(i) + ms.subrange(i, n), ms.skip(n));
            costs_apart(ms.take(i), ms.skip(n));
        }
    }
}

/// Enforcing the budget never makes a conversation cost more, where the
/// results of tools shorten well.
pub proof fn enforcing_costs_no_more(ms: Seq<MessageView>, system: nat, threshold: nat)
    requires
        forall|i: int|
            0 <= i < results::last_tool(ms) && (#[trigger] ms[i]).role == "tool"@ ==> (
            ms[i].content matches ContentView::Parts(ps) ==> shorten_well(ps)),
    ensures
        messages_cost(enforced(ms, system, threshold)) <= messages_cost(ms),
{
    let short = compressed_results(ms);
    compressed_turns(ms);
    assert forall|i: int| 0 <= i < ms.len() implies message_cost(#[trigger] short[i]) <= message_cost(
        ms[i],
    ) by {
        if let ContentView::Parts(ps) = ms[i].content {
            if let ContentView::Parts(after) = short[i].content {
                parts_pointwise(ps, after);
            }
        }
    }
    costs_pointwise(ms, short);
    oldest_saves(short);
}

/// A conversation under the threshold stays as it is.
pub proof fn small_is_untouched(ms: Seq<MessageView>, system: nat, threshold: nat)
    requires
        messages_cost(ms) + system <= threshold,
    ensures
        enforced(ms, system, threshold) == ms,
{
}

// ── Loops ────────────────────────────────────────────────────────────────────

/// How much of the arguments tells calls apart: the characters that begin
/// within 400 bytes.
pub open spec fn told_apart(args: Seq<char>) -> Seq<char> {
    text::first_chars(args, number::fitting(args, 399) as int + 1)
}

pub open spec fn fingerprint(tool: Seq<char>, args: Seq<char>) -> Seq<char> {
    tool + "::"@ + told_apart(args)
}

pub open spec fn last_four(s: Seq<Seq<char>>) -> Seq<Seq<char>> {
    if s.len() > 4 {
        s.skip(s.len() - 4)
    } else {
        s
    }
}

/// The calls that are remembered after one more.
pub open spec fn noted(seen: Seq<Seq<char>>, fp: Seq<char>) -> Seq<Seq<char>> {
    last_four(seen).push(fp)
}

pub open spec fn all_noted(seen: Seq<Seq<char>>, fps: Seq<Seq<char>>) -> Seq<Seq<char>>
    decreases fps.len(),
{
    if fps.len() == 0 {
        seen
    } else {
        noted(all_noted(seen, fps.drop_last()), fps.last())
    }
}

/// A call that comes again is seen, if at most three others came between.
pub proof fn repeat_is_seen(seen: Seq<Seq<char>>, fp: Seq<char>, others: Seq<Seq<char>>)
    requires
        others.len() <= 3,
    ensures
        last_four(all_noted(noted(seen, fp), others)).contains(fp),
{
    noted_behind(noted(seen, fp), others);
    let after = all_noted(noted(seen, fp), others);
    let at = after.len() - 1 - others.len();
    assert(after[at] == fp);
    assert(last_four(after)[last_four(after).len() - 1 - others.len()] == fp);
}

proof fn noted_behind(seen: Seq<Seq<char>>, fps: Seq<Seq<char>>)
    requires
        fps.len() <= 3,
        seen.len() > 0,
    ensures
        all_noted(seen, fps).len() > fps.len(),
        all_noted(seen, fps)[all_noted(seen, fps).len() - 1 - fps.len()] == seen.last(),
    decreases fps.len(),
{
    if fps.len() > 0 {
        noted_behind(seen, fps.drop_last());
    }
}

/// Sees the same call twice among the last five.
#[derive(Debug)]
pub struct LoopDetector {
    recent: Vec<String>,
}

impl View for LoopDetector {
    type V = Seq<Seq<char>>;

    closed spec fn view(&self) -> Seq<Seq<char>> {
        text::views(self.recent@)
    }
}

impl Default for LoopDetector {
    fn default() -> (r: Self)
        ensures
            r@ == Seq::<Seq<char>>::empty(),
    {
        proof {
            text::views_empty();
        }
        LoopDetector { recent: Vec::new() }
    }
}

impl LoopDetector {
    /// Takes note of a call. Gives whether it stands among the last four
    /// before it.
    pub fn record(&mut self, tool_name: &str, args: &str) -> (r: bool)
        ensures
            final(self)@ == noted(old(self)@, fingerprint(tool_name@, args@)),
            r == last_four(old(self)@).contains(fingerprint(tool_name@, args@)),
    {
        let front = front_of_bytes(args, 399);
        proof {
            number::fitting_bound(args@, 399);
        }
        let n: usize = count(front.as_str());
        let mut fp = tool_name.to_owned();
        fp.append("::");
        if n < count(args) {
            fp.append(take_chars(args, n + 1).as_str());
        } else {
            fp.append(args);
        }
        let ghost was = self@;
        while self.recent.len() > 4
            invariant
                last_four(was) == last_four(self@),
            decreases self.recent.len(),
        {
            let ghost before = self.recent@;
            self.recent.remove(0);
            assert(self@ =~= text::views(before).skip(1));
            assert(last_four(self@) =~= last_four(text::views(before)));
        }
        assert(last_four(was) == self@);
        let seen = listed(fp.as_str(), &self.recent);
        self.recent.push(fp);
        seen
    }
}

// ── What messages cost ───────────────────────────────────────────────────────

/// A text costs a token for each four characters, and ten more.
pub proof fn text_costs(s: Seq<char>)
    ensures
        4 * (cost(s) - 10) <= s.len() < 4 * (cost(s) - 10) + 4,
{
}

proof fn parts_add_up(a: Seq<PartView>, b: Seq<PartView>)
    ensures
        parts_cost(a + b) == parts_cost(a) + parts_cost(b),
    decreases b.len(),
{
    if b.len() == 0 {
        assert(a + b =~= a);
    } else {
        parts_add_up(a, b.drop_last());
        assert((a + b).drop_last() =~= a + b.drop_last());
        assert((a + b).last() == b.last());
    }
}

/// Messages cost what each of them costs, and a message of several parts what
/// its texts and results cost.
pub proof fn costs_add_up(
    a: Seq<MessageView>,
    b: Seq<MessageView>,
    m: MessageView,
    ps: Seq<PartView>,
    qs: Seq<PartView>,
    id: Seq<char>,
    t: Seq<char>,
)
    ensures
        messages_cost(Seq::empty()) == 0,
        messages_cost(a + b) == messages_cost(a) + messages_cost(b),
        m.content == ContentView::Text(t) ==> messages_cost(seq![m]) == t.len() / 4 + 10,
        m.content == ContentView::Parts(ps + seq![PartView::Text(t)] + qs) ==> messages_cost(seq![m])
            == messages_cost(seq![MessageView { content: ContentView::Parts(ps + qs), ..m }])
            + t.len() / 4 + 10,
        m.content == ContentView::Parts(ps + seq![PartView::ToolResult(id, t)] + qs)
            ==> messages_cost(seq![m]) == messages_cost(
            seq![MessageView { content: ContentView::Parts(ps + qs), ..m }],
        ) + t.len() / 4 + 10,
    decreases b.len(),
{
    reveal_with_fuel(messages_cost, 2);
    reveal_with_fuel(parts_cost, 2);
    let other = MessageView { content: ContentView::Parts(ps + qs), ..m };
    assert(seq![m].drop_last() =~= Seq::empty());
    assert(seq![other].drop_last() =~= Seq::empty());
    let x = PartView::Text(t);
    let y = PartView::ToolResult(id, t);
    assert(seq![x].drop_last() =~= Seq::empty());
    assert(seq![y].drop_last() =~= Seq::empty());
    parts_add_up(ps + seq![x], qs);
    parts_add_up(ps, seq![x]);
    parts_add_up(ps + seq![y], qs);
    parts_add_up(ps, seq![y]);
    parts_add_up(ps, qs);
    if b.len() == 0 {
        assert(a + b =~= a);
    } else {
        costs_add_up(a, b.drop_last(), m, ps, qs, id, t);
        assert((a + b).drop_last() =~= a + b.drop_last());
        assert((a + b).last() == b.last());
    }
}

// ── What is compressed, and what goes ────────────────────────────────────────

proof fn last_tool_is_last(ms: Seq<MessageView>, i: int)
    requires
        0 <= i < ms.len(),
        ms[i].role == "tool"@,
    ensures
        i <= results::last_tool(ms) < ms.len(),
        ms[results::last_tool(ms) as int].role == "tool"@,
    decreases ms.len(),
{
    if ms.last().role != "tool"@ {
        assert(ms.drop_last()[i] == ms[i]);
        last_tool_is_last(ms.drop_last(), i);
    }
}

/// Over the threshold, the results in the tool messages are shortened, but for
/// those in the last one and for those of at most two hundred bytes. Every
/// other message, and every text, stays as it is.
pub proof fn only_old_results_are_shortened(ms: Seq<MessageView>, i: int)
    requires
        0 <= i < ms.len(),
    ensures
        ({
            let after = compressed_results(ms);
            &&& after.len() == ms.len()
            &&& ms[i].role != "tool"@ ==> after[i] == ms[i]
            &&& ms[i].content is Text ==> after[i] == ms[i]
            &&& (forall|k: int| i < k < ms.len() ==> (#[trigger] ms[k]).role != "tool"@)
                ==> after[i] == ms[i]
            &&& after[i].role == ms[i].role && after[i].tool_calls == ms[i].tool_calls
            &&& ms[i].role == "tool"@ && (exists|k: int|
                i < k < ms.len() && (#[trigger] ms[k]).role == "tool"@) ==> (
            ms[i].content matches ContentView::Parts(ps) ==> (
            after[i].content matches ContentView::Parts(qs) && qs.len() == ps.len() && (forall|j: int|
                0 <= j < ps.len() ==> match #[trigger] ps[j] {
                    PartView::Text(t) => qs[j] == ps[j],
                    PartView::ToolResult(id, c) => qs[j] == PartView::ToolResult(
                        id,
                        if number::width(c) <= 200 {
                            c
                        } else {
                            compressed_content(c)
                        },
                    ),
                })))
        }),
{
    let n = results::last_tool(ms) as int;
    if ms[i].role == "tool"@ {
        last_tool_is_last(ms, i);
        if forall|k: int| i < k < ms.len() ==> (#[trigger] ms[k]).role != "tool"@ {
            if i < n {
                assert(ms[n].role != "tool"@);
            }
        }
        if exists|k: int| i < k < ms.len() && (#[trigger] ms[k]).role == "tool"@ {
            let k = choose|k: int| i < k < ms.len() && (#[trigger] ms[k]).role == "tool"@;
            last_tool_is_last(ms, k);
            assert(i < n);
        }
    }
}

/// Where there are more than five messages, the first assistant message goes
/// that stands behind the head and before the last four: alone where no tool
/// message follows it, and with the tool message where that is not one of the
/// last four either. The head is the first message, or the first three where
/// the project's index was shown at the start.
pub proof fn oldest_turn_goes(ms: Seq<MessageView>, i: int)
    requires
        ms.len() > 5,
        ({
            let indexed = ms[0].role == "assistant"@ && exists|k: int|
                0 <= k < ms[0].tool_calls.len() && (#[trigger] ms[0].tool_calls[k]).id == "pie_ctx_0"@;
            (if indexed {
                3int
            } else {
                1
            }) <= i < ms.len() - 4 && forall|k: int|
                (if indexed {
                    3int
                } else {
                    1
                }) <= k < i ==> (#[trigger] ms[k]).role != "assistant"@
        }),
        ms[i].role == "assistant"@,
    ensures
        ms[i + 1].role != "tool"@ ==> without_oldest(ms) == ms.remove(i),
        ms[i + 1].role == "tool"@ && i + 2 <= ms.len() - 4 ==> without_oldest(ms) == ms.remove(
            i,
        ).remove(i),
        ms[i + 1].role == "tool"@ && i + 2 > ms.len() - 4 ==> without_oldest(ms) == ms,
{
    let head = kept_head(ms);
    first_found(ms, head, i);
    assert(ms.take(i) + ms.skip(i + 1) =~= ms.remove(i));
    assert(ms.take(i) + ms.skip(i + 2) =~= ms.remove(i).remove(i));
}

proof fn first_found(ms: Seq<MessageView>, from: int, i: int)
    requires
        0 <= from <= i < ms.len() - 4,
        ms[i].role == "assistant"@,
        forall|k: int| from <= k < i ==> (#[trigger] ms[k]).role != "assistant"@,
    ensures
        first_assistant(ms, from, ms.len() - 4) == Some(i),
    decreases i - from,
{
    if from < i {
        first_found(ms, from + 1, i);
    }
}

/// Where no assistant message stands between the head and the last four, or
/// there are five messages at most, none goes.
pub proof fn nothing_else_goes(ms: Seq<MessageView>)
    requires
        ms.len() <= 5 || forall|k: int|
            1 <= k < ms.len() - 4 ==> (#[trigger] ms[k]).role != "assistant"@,
    ensures
        without_oldest(ms) == ms,
{
    if ms.len() > 5 {
        none_found(ms, kept_head(ms));
    }
}

proof fn none_found(ms: Seq<MessageView>, from: int)
    requires
        0 <= from,
        forall|k: int| from <= k < ms.len() - 4 ==> (#[trigger] ms[k]).role != "assistant"@,
    ensures
        first_assistant(ms, from, ms.len() - 4) is None,
    decreases ms.len() - from,
{
    if from < ms.len() - 4 {
        none_found(ms, from + 1);
    }
}

/// As many lines hold `p` as there are lines that hold it.
pub proof fn lines_are_counted(ls: Seq<Seq<char>>, p: Seq<char>)
    ensures
        lines_with(ls, p) == ls.filter(|l: Seq<char>| text::contains(l, p)).len(),
    decreases ls.len(),
{
    reveal(Seq::filter);
    if ls.len() > 0 {
        lines_are_counted(ls.drop_last(), p);
    }
}

/// A result that shows a file is shortened to the file's path and to how many
/// numbered lines were shown; another is shortened to its first line.
pub proof fn shown_file_is_named(path: Seq<char>, more: Seq<char>, rest: Seq<char>)
    requires
        path.len() > 0,
        path[0] != '[' && !text::is_white(path[0]),
        path.last() != ']' && !text::is_white(path.last()),
        !path.contains('—') && !path.contains('\n'),
        !more.contains('\n'),
        more.len() == 0 || more.last() != '\r',
    ensures
        ({
            let content = "["@ + path + " — "@ + more + "\n"@ + rest;
            let shown = pieces::lines(content).filter(
                |l: Seq<char>| text::contains(l, " | "@),
            ).len();
            compressed_content(content) == if shown > 0 {
                "[content compressed — ✓ Read "@ + path + " ("@ + number::decimal(shown)
                    + " lines). Ask to recall if needed.]"@
            } else {
                "[content compressed — ✓ Read "@ + path + ". Ask to recall if needed.]"@
            }
        }),
{
    reveal_strlit("[");
    reveal_strlit("]");
    reveal_strlit(" — ");
    reveal_strlit(" —");
    reveal_strlit("\n");
    let first = "["@ + path + " — "@ + more;
    let content = "["@ + path + " — "@ + more + "\n"@ + rest;
    if first.contains('\n') {
        let i = choose|i: int| 0 <= i < first.len() && first[i] == '\n';
        if 1 <= i < 1 + path.len() {
            assert(path[i - 1] == '\n');
        } else if i >= 4 + path.len() {
            assert(more[i - 4 - path.len()] == '\n');
        }
    }
    assert(more.len() > 0 ==> first.last() == more.last());
    pieces::line_ends_are_dropped(first, rest);
    assert(pieces::first_line(content) == first);
    assert(first.subrange(0, 1) =~= "["@);
    let n = 1 + path.len() as int;
    assert(first.subrange(n, n + 3) =~= " — "@);
    assert(text::occurs_at(first, " — "@, n));
    let inner = path + " — "@ + more;
    let open = CharSet::OneOf("[");
    assert("["@[0] == '[' && "["@.contains('['));
    assert(!"["@.contains(path[0]));
    text::lead_bound(first, open, true);
    assert(first[0] == '[' && first[1] == path[0]);
    assert(text::lead(first, open, true) == 1);
    assert(first.skip(1) =~= inner);
    let k = path.len() as int;
    assert(inner.subrange(k, k + 2) =~= " —"@);
    assert(text::occurs_at(inner, " —"@, k));
    text::find_is_first(inner, " —"@);
    let j = text::find(inner, " —"@)->0;
    if j < k {
        assert(inner.subrange(j, j + 2)[1] == inner[j + 1]);
        if j + 1 < k {
            assert(inner[j + 1] == path[j + 1]);
        }
    }
    assert(inner.take(k) =~= path);
    assert("]"@[0] == ']');
    assert(!"]"@.contains(path.last()));
    assert(path.take(k) =~= path);
    assert(header_path(first) == path);
    text::lead_bound(path, CharSet::White, true);
    assert(text::lead(path, CharSet::White, true) == 0);
    assert(path.skip(0) =~= path);
    assert(text::trim(path) == path);
    lines_are_counted(pieces::lines(content), " | "@);
}

proof fn noted_last(seen: Seq<Seq<char>>, fps: Seq<Seq<char>>, j: int)
    requires
        0 <= j < fps.len() <= 4,
    ensures
        all_noted(seen, fps).len() > j,
        all_noted(seen, fps)[all_noted(seen, fps).len() - 1 - j] == fps[fps.len() - 1 - j],
    decreases fps.len(),
{
    if j > 0 {
        noted_last(seen, fps.drop_last(), j - 1);
    }
}

/// The call that was noted last is among the four last, and one that was
/// followed by four others is not, unless one of them is the same.
pub proof fn old_call_is_forgotten(seen: Seq<Seq<char>>, fp: Seq<char>, others: Seq<Seq<char>>)
    requires
        others.len() == 4,
        !others.contains(fp),
    ensures
        !last_four(all_noted(noted(seen, fp), others)).contains(fp),
{
    let after = all_noted(noted(seen, fp), others);
    let l = last_four(after);
    noted_last(noted(seen, fp), others, 3);
    if l.contains(fp) {
        let i = choose|i: int| 0 <= i < l.len() && l[i] == fp;
        noted_last(noted(seen, fp), others, 3 - i);
        assert(l[i] == after[after.len() - 4 + i]);
        assert(others[i] == fp);
    }
}

/// Two calls are taken for the same if and only if the tools are the same and
/// the arguments are, where these are at most four hundred bytes long.
pub proof fn short_calls_are_told_apart(
    tool: Seq<char>,
    a: Seq<char>,
    b: Seq<char>,
)
    requires
        number::width(a) < 400,
        number::width(b) < 400,
    ensures
        fingerprint(tool, a) == fingerprint(tool, b) <==> a == b,
        fingerprint(tool, a) == tool + "::"@ + a,
{
    let p = tool + "::"@;
    assert(number::fitting(a, 399) == a.len());
    assert(number::fitting(b, 399) == b.len());
    assert((p + a).skip(p.len() as int) =~= a);
    assert((p + b).skip(p.len() as int) =~= b);
}

// ── How much room there is ───────────────────────────────────────────────────

proof fn gap_is_small(n: nat, p: nat)
    requires
        p > 0,
        p == 1 || p * 0x80_0000 <= n,
    ensures
        gap(n, p) > 0,
        gap(n, p) == 1 || gap(n, p) * 0x80_0000 <= n,
    decreases n - p,
{
    if !(2 * p > n || n / p < 0x100_0000) {
        assert(p * 0x100_0000 <= n) by (nonlinear_arith)
            requires
                n / p >= 0x100_0000,
                p > 0,
        ;
        gap_is_small(n, 2 * p);
    }
}

proof fn rounding_is_close(n: nat)
    ensures
        0x100_0000 * (rounded(n) - n) <= n,
        0x100_0000 * (n - rounded(n)) <= n,
        n < 0x80_0000 ==> rounded(n) == n,
{
    gap_is_small(n, 1);
    let p = gap(n, 1);
    let q = n / p;
    let r = n % p;
    assert(q * p + r == n && 0 <= r < p) by (nonlinear_arith)
        requires
            q == n / p,
            r == n % p,
            p > 0,
    ;
    assert((q + 1) * p == q * p + p) by (nonlinear_arith);
    if p == 1 {
        assert(r == 0);
    }
    let d = rounded(n) - n;
    assert(2 * d <= p && -2 * d <= p);
}

/// The headroom for an answer is three twentieths of the context, to within a
/// token or two, and the conversation is compressed above four fifths of what
/// is left.
pub proof fn room_is_shared_out(n: nat)
    requires
        n < 0x80_0000,
    ensures
        3 * n - 25 <= 20 * headroom(n) <= 3 * n + 7,
        4 * n - 8 <= 5 * four_fifths(n) <= 4 * n + 3,
{
    rounding_is_close(n);
    let a = n * 10066330;
    rounding_is_close(a);
    let h = headroom(n);
    assert(rounded(a) / 0x400_0000 == h);
    let b = n * 13421773;
    rounding_is_close(b);
    let f = four_fifths(n);
    assert(rounded(b) / 0x100_0000 == f);
}

} // verus!
