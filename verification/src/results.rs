//! Tool results inside a conversation.

use crate::client;
use crate::client::{clone_calls, ContentPart, ContentView, Message, MessageContent, MessageView, PartView};
use crate::text::same;
use vstd::prelude::*;

verus! {

/// The place of the last tool message, or the first place.
pub open spec fn last_tool(ms: Seq<MessageView>) -> nat
    decreases ms.len(),
{
    if ms.len() == 0 {
        0
    } else if ms.last().role == "tool"@ {
        (ms.len() - 1) as nat
    } else {
        last_tool(ms.drop_last())
    }
}

pub open spec fn rewritten_part(
    p: PartView,
    f: spec_fn(Seq<char>, Seq<char>) -> Seq<char>,
) -> PartView {
    match p {
        PartView::Text(t) => PartView::Text(t),
        PartView::ToolResult(id, content) => PartView::ToolResult(id, f(id, content)),
    }
}

pub open spec fn rewritten_message(
    m: MessageView,
    f: spec_fn(Seq<char>, Seq<char>) -> Seq<char>,
) -> MessageView {
    match m.content {
        ContentView::Parts(ps) => if m.role == "tool"@ {
            MessageView {
                content: ContentView::Parts(
                    Seq::new(ps.len(), |i: int| rewritten_part(ps[i], f)),
                ),
                ..m
            }
        } else {
            m
        },
        ContentView::Text(_) => m,
    }
}

/// The messages with the results in the tool messages before `end` rewritten.
/// `f` takes the id of a call and its result.
pub open spec fn rewritten(
    ms: Seq<MessageView>,
    end: int,
    f: spec_fn(Seq<char>, Seq<char>) -> Seq<char>,
) -> Seq<MessageView> {
    Seq::new(
        ms.len(),
        |i: int|
            if i < end {
                rewritten_message(ms[i], f)
            } else {
                ms[i]
            },
    )
}

/// The place of the last tool message, or the first place.
pub fn last_tool_at(messages: &Vec<Message>) -> (r: usize)
    ensures
        r == last_tool(client::message_views(messages@)),
        messages.len() > 0 ==> r < messages.len(),
{
    let ghost ms = client::message_views(messages@);
    let mut i: usize = messages.len();
    assert(ms.take(i as int) =~= ms);
    while i > 0
        invariant
            i <= messages.len(),
            ms == client::message_views(messages@),
            last_tool(ms) == last_tool(ms.take(i as int)),
        decreases i,
    {
        assert(ms.take(i as int).last() == messages@[i - 1]@);
        assert(ms.take(i as int).drop_last() =~= ms.take(i - 1));
        if same(messages[i - 1].role.as_str(), "tool") {
            return i - 1;
        }
        i -= 1;
    }
    0
}

fn rewrite_parts<F: Fn(&str, &str) -> Option<String>>(
    parts: &Vec<ContentPart>,
    f: &F,
    Ghost(g): Ghost<spec_fn(Seq<char>, Seq<char>) -> Seq<char>>,
) -> (r: Vec<ContentPart>)
    requires
        forall|id: &str, c: &str| #[trigger] call_requires(*f, (id, c)),
        forall|id: &str, c: &str, o: Option<String>| #[trigger]
            call_ensures(*f, (id, c), o) ==> g(id@, c@) == (match o {
                Some(t) => t@,
                None => c@,
            }),
    ensures
        r.len() == parts.len(),
        forall|k: int|
            0 <= k < parts.len() ==> (#[trigger] r@[k])@ == rewritten_part(parts@[k]@, g),
{
    let mut out: Vec<ContentPart> = Vec::new();
    let mut i: usize = 0;
    while i < parts.len()
        invariant
            i <= parts.len(),
            out.len() == i,
            forall|id: &str, c: &str| #[trigger] call_requires(*f, (id, c)),
            forall|id: &str, c: &str, o: Option<String>| #[trigger]
                call_ensures(*f, (id, c), o) ==> g(id@, c@) == (match o {
                    Some(t) => t@,
                    None => c@,
                }),
            forall|k: int|
                0 <= k < i ==> (#[trigger] out@[k])@ == rewritten_part(parts@[k]@, g),
        decreases parts.len() - i,
    {
        let p = match &parts[i] {
            ContentPart::Text { text } => ContentPart::Text { text: text.clone() },
            ContentPart::ToolResult { tool_use_id, content } => {
                let new = match f(tool_use_id.as_str(), content.as_str()) {
                    Some(t) => t,
                    None => content.clone(),
                };
                ContentPart::ToolResult { tool_use_id: tool_use_id.clone(), content: new }
            },
        };
        out.push(p);
        i += 1;
    }
    out
}

/// Rewrites the results in the tool messages before `end`; those for which
/// `f` gives nothing stay.
pub(crate) fn rewrite<F: Fn(&str, &str) -> Option<String>>(
    messages: &mut Vec<Message>,
    end: usize,
    f: &F,
    Ghost(g): Ghost<spec_fn(Seq<char>, Seq<char>) -> Seq<char>>,
)
    requires
        forall|id: &str, c: &str| #[trigger] call_requires(*f, (id, c)),
        forall|id: &str, c: &str, o: Option<String>| #[trigger]
            call_ensures(*f, (id, c), o) ==> g(id@, c@) == (match o {
                Some(t) => t@,
                None => c@,
            }),
    ensures
        client::message_views(final(messages)@) == rewritten(
            client::message_views(old(messages)@),
            end as int,
            g,
        ),
{
    let ghost before = client::message_views(messages@);
    let mut i: usize = 0;
    while i < messages.len() && i < end
        invariant
            i <= messages.len(),
            i <= end,
            before.len() == messages.len(),
            forall|id: &str, c: &str| #[trigger] call_requires(*f, (id, c)),
            forall|id: &str, c: &str, o: Option<String>| #[trigger]
                call_ensures(*f, (id, c), o) ==> g(id@, c@) == (match o {
                    Some(t) => t@,
                    None => c@,
                }),
            forall|k: int|
                0 <= k < i ==> (#[trigger] messages@[k])@ == rewritten_message(before[k], g),
            forall|k: int| i <= k < messages.len() ==> (#[trigger] messages@[k])@ == before[k],
        decreases messages.len() - i,
    {
        assert(messages@[i as int]@ == before[i as int]);
        if same(messages[i].role.as_str(), "tool") {
            if let MessageContent::Parts(parts) = &messages[i].content {
                let new = rewrite_parts(parts, f, Ghost(g));
                let m = Message {
                    role: messages[i].role.clone(),
                    content: MessageContent::Parts(new),
                    tool_calls: clone_calls(&messages[i].tool_calls),
                };
                assert(m@ == rewritten_message(before[i as int], g)) by {
                    let ps = client::part_views(parts@);
                    assert(client::part_views(new@) =~= Seq::new(
                        ps.len(),
                        |k: int| rewritten_part(ps[k], g),
                    ));
                }
                messages.set(i, m);
            }
        }
        i += 1;
    }
    assert(client::message_views(messages@) =~= rewritten(before, end as int, g));
}

} // verus!
