//! Cutting down what the model has used up, and what an edit made wrong.

use crate::budget;
use crate::budget::count_lines_with;
use crate::client;
use crate::client::{ContentView, Message, MessageContent, MessageView, PartView, ToolCall, ToolCallView};
use crate::history;
use crate::history::{is_ranged, stale_stub};
use crate::names::NameMap;
use crate::number;
use crate::number::{byte_len, decimal_usize, front_of_bytes};
use crate::pie;
use crate::pieces;
use crate::pieces::{before_first, first_line_of, lines_of};
use crate::results;
use crate::results::{last_tool_at, rewrite};
use crate::text;
use crate::text::{begins_with, count, holds, same, trim_by, trimmed, CharSet};
use vstd::prelude::*;

verus! {

broadcast use crate::text::views_push;

// ── Results ──────────────────────────────────────────────────────────────────

/// Whether a result stays whole: places in the index, windows of files, and
/// what is short anyway.
pub open spec fn protected(tool: Seq<char>, content: Seq<char>) -> bool {
    ||| tool == "find_symbol"@
    ||| tool == "read_file"@ && history::ranged(pieces::first_line(content))
    ||| number::width(content) <= 120
}

/// Whether a result stays whole.
pub fn should_protect_tool_result(tool_name: &str, content: &str) -> (r: bool)
    ensures
        r == protected(tool_name@, content@),
{
    same(tool_name, "find_symbol") || (same(tool_name, "read_file") && is_ranged(
        first_line_of(content).as_str(),
    )) || byte_len(content) <= 120
}

/// The first line that is not blank, or the first line.
pub open spec fn first_filled(ls: Seq<Seq<char>>) -> Option<Seq<char>>
    decreases ls.len(),
{
    if ls.len() == 0 {
        None
    } else if text::trim(ls[0]).len() > 0 {
        Some(ls[0])
    } else {
        first_filled(ls.skip(1))
    }
}

/// What is left of a result that was used up: the file that was read, or
/// the first line of what ran, up to 80 bytes.
pub open spec fn stub(content: Seq<char>) -> Seq<char> {
    let first = pieces::first_line(content);
    if text::begins(first, "["@) && (text::contains(first, " — "@) || text::contains(
        first,
        " lines"@,
    )) {
        let path = text::trim(
            pieces::before_text(text::trim_set(first, CharSet::OneOf("[]")), " —"@),
        );
        let n = budget::lines_with(pieces::lines(content), " | "@);
        if n > 0 {
            "[read "@ + path + " — "@ + number::decimal(n) + " lines shown, consumed]"@
        } else {
            "[read "@ + path + " — consumed]"@
        }
    } else {
        let line = match first_filled(pieces::lines(content)) {
            Some(l) => l,
            None => first,
        };
        "[bash result consumed: "@ + number::front_bytes(line, 80) + (if number::width(line)
            > 80 {
            "…]"@
        } else {
            "]"@
        })
    }
}

fn filled_line(content: &str) -> (r: String)
    ensures
        r@ == (match first_filled(pieces::lines(content@)) {
            Some(l) => l,
            None => pieces::first_line(content@),
        }),
{
    let ls = lines_of(content);
    let ghost lv = text::views(ls@);
    let mut i: usize = 0;
    assert(lv.skip(0) =~= lv);
    while i < ls.len()
        invariant
            i <= ls.len(),
            lv == text::views(ls@),
            lv == pieces::lines(content@),
            first_filled(lv) == first_filled(lv.skip(i as int)),
        decreases ls.len() - i,
    {
        assert(lv.skip(i as int)[0] == ls@[i as int]@);
        assert(lv.skip(i as int).skip(1) =~= lv.skip(i + 1));
        if count(trimmed(ls[i].as_str()).as_str()) > 0 {
            return ls[i].clone();
        }
        i += 1;
    }
    first_line_of(content)
}

/// What is left of a result that was used up.
pub fn compress_tool_result_to_stub(content: &str) -> (r: String)
    ensures
        r@ == stub(content@),
{
    let first = first_line_of(content);
    if begins_with(first.as_str(), "[") && (holds(first.as_str(), " — ") || holds(
        first.as_str(),
        " lines",
    )) {
        let inner = trim_by(first.as_str(), CharSet::OneOf("[]"));
        let path = trimmed(before_first(inner.as_str(), " —").as_str());
        let n: usize = count_lines_with(content, " | ");
        let mut s = "[read ".to_owned();
        s.append(path.as_str());
        s.append(" — ");
        if n > 0 {
            s.append(decimal_usize(n).as_str());
            s.append(" lines shown, consumed]");
            return s;
        }
        let mut t = "[read ".to_owned();
        t.append(path.as_str());
        t.append(" — consumed]");
        return t;
    }
    let line = filled_line(content);
    let mut s = "[bash result consumed: ".to_owned();
    s.append(front_of_bytes(line.as_str(), 80).as_str());
    if byte_len(line.as_str()) > 80 {
        s.append("…]");
    } else {
        s.append("]");
    }
    s
}

// ── The names of calls ───────────────────────────────────────────────────────

/// The names of the calls by their ids, added to those known.
pub open spec fn with_calls(
    m: Map<Seq<char>, Seq<char>>,
    calls: Seq<ToolCallView>,
) -> Map<Seq<char>, Seq<char>>
    decreases calls.len(),
{
    if calls.len() == 0 {
        m
    } else {
        with_calls(m, calls.drop_last()).insert(calls.last().id, calls.last().name)
    }
}

/// The names of all calls that the model made, by their ids.
pub open spec fn call_names(ms: Seq<MessageView>) -> Map<Seq<char>, Seq<char>>
    decreases ms.len(),
{
    if ms.len() == 0 {
        Map::empty()
    } else if ms.last().role == "assistant"@ {
        with_calls(call_names(ms.drop_last()), ms.last().tool_calls)
    } else {
        call_names(ms.drop_last())
    }
}

fn add_calls(m: &mut NameMap<String>, calls: &Vec<ToolCall>)
    ensures
        pie::text_map(final(m)@) == with_calls(
            pie::text_map(old(m)@),
            client::call_views(calls@),
        ),
{
    let ghost before = pie::text_map(m@);
    let ghost cv = client::call_views(calls@);
    let mut i: usize = 0;
    assert(cv.take(0) =~= Seq::<ToolCallView>::empty());
    while i < calls.len()
        invariant
            i <= calls.len(),
            cv == client::call_views(calls@),
            pie::text_map(m@) == with_calls(before, cv.take(i as int)),
        decreases calls.len() - i,
    {
        assert(cv.take(i + 1).drop_last() =~= cv.take(i as int));
        assert(cv.take(i + 1).last() == calls@[i as int]@);
        let ghost had = pie::text_map(m@);
        m.insert(calls[i].id.clone(), calls[i].name.clone());
        assert(pie::text_map(m@) =~= had.insert(calls@[i as int].id@, calls@[i as int].name@));
        i += 1;
    }
    assert(cv.take(i as int) =~= cv);
}

fn names_of_calls(messages: &Vec<Message>) -> (m: NameMap<String>)
    ensures
        pie::text_map(m@) == call_names(client::message_views(messages@)),
{
    let ghost ms = client::message_views(messages@);
    let mut m: NameMap<String> = NameMap::new();
    let mut i: usize = 0;
    assert(ms.take(0) =~= Seq::<MessageView>::empty());
    assert(pie::text_map(m@) =~= Map::<Seq<char>, Seq<char>>::empty());
    while i < messages.len()
        invariant
            i <= messages.len(),
            ms == client::message_views(messages@),
            pie::text_map(m@) == call_names(ms.take(i as int)),
        decreases messages.len() - i,
    {
        assert(ms.take(i + 1).drop_last() =~= ms.take(i as int));
        assert(ms.take(i + 1).last() == messages@[i as int]@);
        if same(messages[i].role.as_str(), "assistant") {
            add_calls(&mut m, &messages[i].tool_calls);
        }
        i += 1;
    }
    assert(ms.take(i as int) =~= ms);
    m
}

// ── After a round of tools ───────────────────────────────────────────────────

/// A message without the words that led to its calls.
pub open spec fn quiet(m: MessageView) -> MessageView {
    if m.role == "assistant"@ && m.tool_calls.len() > 0 {
        MessageView { content: ContentView::Text(Seq::empty()), ..m }
    } else {
        m
    }
}

/// The messages, all but the last without the words that led to calls.
pub open spec fn quieted(ms: Seq<MessageView>) -> Seq<MessageView> {
    Seq::new(
        ms.len(),
        |i: int|
            if i < ms.len() - 1 {
                quiet(ms[i])
            } else {
                ms[i]
            },
    )
}

pub open spec fn name_or_none(names: Map<Seq<char>, Seq<char>>, id: Seq<char>) -> Seq<char> {
    if names.dom().contains(id) {
        names[id]
    } else {
        Seq::empty()
    }
}

/// A result once it was used up.
pub open spec fn used_up(
    names: Map<Seq<char>, Seq<char>>,
    id: Seq<char>,
    content: Seq<char>,
) -> Seq<char> {
    if protected(name_or_none(names, id), content) {
        content
    } else {
        stub(content)
    }
}

/// The messages after a round of tools: the words that led to calls are
/// gone, and the results of all rounds but the last are used up.
pub open spec fn settled(ms: Seq<MessageView>) -> Seq<MessageView> {
    let q = quieted(ms);
    let names = call_names(q);
    results::rewritten(
        q,
        results::last_tool(q) as int,
        |id: Seq<char>, content: Seq<char>| used_up(names, id, content),
    )
}

fn quiet_messages(messages: &mut Vec<Message>)
    ensures
        client::message_views(final(messages)@) == quieted(client::message_views(old(messages)@)),
{
    let ghost before = client::message_views(messages@);
    let mut i: usize = 0;
    while i < messages.len() && i < messages.len() - 1
        invariant
            i <= messages.len(),
            before.len() == messages.len(),
            messages.len() > 0 ==> i <= messages.len() - 1,
            forall|k: int| 0 <= k < i ==> (#[trigger] messages@[k])@ == quiet(before[k]),
            forall|k: int| i <= k < messages.len() ==> (#[trigger] messages@[k])@ == before[k],
        decreases messages.len() - i,
    {
        assert(messages@[i as int]@ == before[i as int]);
        assert(before[i as int].tool_calls.len() == messages@[i as int].tool_calls@.len());
        if same(messages[i].role.as_str(), "assistant") && messages[i].tool_calls.len() > 0 {
            let m = Message {
                role: messages[i].role.clone(),
                content: MessageContent::Text(String::new()),
                tool_calls: client::clone_calls(&messages[i].tool_calls),
            };
            messages.set(i, m);
        }
        i += 1;
    }
    assert(client::message_views(messages@) =~= quieted(before));
}

/// Cuts down the messages after a round of tools.
pub fn strip_cot_from_last_assistant(messages: &mut Vec<Message>)
    ensures
        client::message_views(final(messages)@) == settled(client::message_views(old(messages)@)),
{
    quiet_messages(messages);
    let end: usize = last_tool_at(messages);
    let names = names_of_calls(messages);
    let ghost nm = pie::text_map(names@);
    let f = |id: &str, content: &str| -> (r: Option<String>)
        ensures
            used_up(pie::text_map(names@), id@, content@) == (match r {
                Some(t) => t@,
                None => content@,
            })
        {
            let name = match names.get(id) {
                Some(n) => n.as_str(),
                None => "",
            };
            proof {
                reveal_strlit("");
                assert(""@ =~= Seq::<char>::empty());
            }
            if should_protect_tool_result(name, content) {
                None
            } else {
                Some(compress_tool_result_to_stub(content))
            }
        };
    rewrite(
        messages,
        end,
        &f,
        Ghost(|id: Seq<char>, content: Seq<char>| used_up(nm, id, content)),
    );
}

// ── After an edit ────────────────────────────────────────────────────────────

/// Whether one of the lines begins with the text.
pub open spec fn line_begins(ls: Seq<Seq<char>>, p: Seq<char>) -> bool {
    exists|i: int| 0 <= i < ls.len() && text::begins(#[trigger] ls[i], p)
}

/// Whether a result shows a file as it was before an edit: a read of it, the
/// echo of an edit, or places that a search found in it.
pub open spec fn outdated(content: Seq<char>, path: Seq<char>) -> bool {
    &&& number::width(content) > 150
    &&& text::contains(content, path)
    &&& {
        ||| text::begins(content, "["@) && (text::contains(content, " | "@) || text::contains(
            content,
            " — "@,
        ))
        ||| text::contains(content, "✓ Edited"@) && text::contains(content, " | "@)
        ||| line_begins(pieces::lines(content), path + ":"@)
    }
}

/// A result after an edit of the path.
pub open spec fn refreshed(content: Seq<char>, path: Seq<char>) -> Seq<char> {
    if outdated(content, path) {
        history::stale_note(path)
    } else {
        content
    }
}

/// The messages after an edit of the path.
pub open spec fn evicted(ms: Seq<MessageView>, path: Seq<char>) -> Seq<MessageView> {
    results::rewritten(
        ms,
        ms.len() as int,
        |id: Seq<char>, content: Seq<char>| refreshed(content, path),
    )
}

fn some_line_begins(content: &str, p: &str) -> (r: bool)
    ensures
        r == line_begins(pieces::lines(content@), p@),
{
    let ls = lines_of(content);
    let ghost lv = text::views(ls@);
    let mut i: usize = 0;
    while i < ls.len()
        invariant
            i <= ls.len(),
            lv == text::views(ls@),
            lv == pieces::lines(content@),
            forall|k: int| 0 <= k < i ==> !text::begins(#[trigger] lv[k], p@),
        decreases ls.len() - i,
    {
        assert(lv[i as int] == ls@[i as int]@);
        if begins_with(ls[i].as_str(), p) {
            return true;
        }
        i += 1;
    }
    assert(lv.len() == ls@.len());
    false
}

fn is_outdated(content: &str, path: &str) -> (r: bool)
    ensures
        r == outdated(content@, path@),
{
    if byte_len(content) <= 150 || !holds(content, path) {
        return false;
    }
    let is_read = begins_with(content, "[") && (holds(content, " | ") || holds(content, " — "));
    let is_echo = holds(content, "✓ Edited") && holds(content, " | ");
    let mut prefix = path.to_owned();
    prefix.append(":");
    is_read || is_echo || some_line_begins(content, prefix.as_str())
}

/// Takes what shows a file as it was before an edit out of the messages.
pub fn evict_stale_content(messages: &mut Vec<Message>, edited_path: &str)
    ensures
        client::message_views(final(messages)@) == evicted(
            client::message_views(old(messages)@),
            edited_path@,
        ),
{
    let end: usize = messages.len();
    let ghost p = edited_path@;
    let f = |id: &str, content: &str| -> (r: Option<String>)
        ensures
            refreshed(content@, edited_path@) == (match r {
                Some(t) => t@,
                None => content@,
            })
        {
            if is_outdated(content, edited_path) {
                Some(stale_stub(edited_path))
            } else {
                None
            }
        };
    rewrite(
        messages,
        end,
        &f,
        Ghost(|id: Seq<char>, content: Seq<char>| refreshed(content, p)),
    );
    assert(client::message_views(messages@) =~= evicted(
        client::message_views(old(messages)@),
        edited_path@,
    ));
}

// ── Laws ─────────────────────────────────────────────────────────────────────

/// Answers without calls, what the user said and the last round of results
/// stay as they are.
pub proof fn answers_are_kept(ms: Seq<MessageView>, i: int)
    requires
        0 <= i < ms.len(),
    ensures
        settled(ms).len() == ms.len(),
        settled(ms)[i].role == ms[i].role,
        settled(ms)[i].tool_calls == ms[i].tool_calls,
        ms[i].role != "tool"@ && !(ms[i].role == "assistant"@ && ms[i].tool_calls.len() > 0)
            ==> settled(ms)[i] == ms[i],
        ms[i].role == "tool"@ && i >= results::last_tool(ms) ==> settled(ms)[i] == ms[i],
        i == ms.len() - 1 && ms[i].role != "tool"@ ==> settled(ms)[i] == ms[i],
{
    reveal_strlit("assistant");
    reveal_strlit("tool");
    assert("assistant"@.len() != "tool"@.len());
    last_tool_of_quieted(ms);
}

proof fn last_tool_of_quieted(ms: Seq<MessageView>)
    ensures
        results::last_tool(quieted(ms)) == results::last_tool(ms),
{
    same_roles_same_last(ms, quieted(ms));
}

proof fn same_roles_same_last(a: Seq<MessageView>, b: Seq<MessageView>)
    requires
        a.len() == b.len(),
        forall|i: int| 0 <= i < a.len() ==> (#[trigger] a[i]).role == b[i].role,
    ensures
        results::last_tool(a) == results::last_tool(b),
    decreases a.len(),
{
    if a.len() > 0 {
        assert(a[a.len() - 1].role == b[b.len() - 1].role);
        assert forall|i: int| 0 <= i < a.drop_last().len() implies (#[trigger] a.drop_last()[i]).role
            == b.drop_last()[i].role by {
            assert(a[i].role == b[i].role);
        }
        same_roles_same_last(a.drop_last(), b.drop_last());
    }
}

/// The words that led to calls are gone from all messages but the last.
pub proof fn reasoning_is_gone(ms: Seq<MessageView>, i: int)
    requires
        0 <= i < ms.len() - 1,
        ms[i].role == "assistant"@,
        ms[i].tool_calls.len() > 0,
    ensures
        settled(ms)[i].content == ContentView::Text(Seq::empty()),
{
    reveal_strlit("assistant");
    reveal_strlit("tool");
    assert("assistant"@.len() != "tool"@.len());
}

/// A second edit of a path finds nothing more to take out.
pub proof fn evicting_again(ms: Seq<MessageView>, path: Seq<char>)
    ensures
        evicted(evicted(ms, path), path) == evicted(ms, path),
{
    let once = evicted(ms, path);
    let f = |id: Seq<char>, content: Seq<char>| refreshed(content, path);
    assert forall|i: int| 0 <= i < ms.len() implies #[trigger] evicted(once, path)[i]
        == once[i] by {
        match ms[i].content {
            ContentView::Parts(ps) => {
                if ms[i].role == "tool"@ {
                    let qs = once[i].content->Parts_0;
                    assert(qs.len() == ps.len());
                    assert(Seq::new(qs.len(), |k: int| results::rewritten_part(qs[k], f)) =~= qs) by {
                        assert forall|k: int| 0 <= k < qs.len() implies results::rewritten_part(
                            qs[k],
                            f,
                        ) == qs[k] by {
                            assert(qs[k] == results::rewritten_part(ps[k], f));
                        }
                    }
                }
            },
            ContentView::Text(_) => {},
        }
    }
    assert(evicted(once, path) =~= once);
}

/// What an edit leaves of a result is not out of date, unless it is the very
/// note that says so: on a long path the note reads like a result.
pub proof fn nothing_outdated_is_left(content: Seq<char>, path: Seq<char>)
    ensures
        outdated(refreshed(content, path), path) ==> refreshed(content, path)
            == history::stale_note(path),
{
}

// ── Which results are used up ────────────────────────────────────────────────

/// A call's result goes by the call's name: a call that is not followed by
/// another of its id keeps its name.
pub proof fn calls_keep_their_names(
    ms: Seq<MessageView>,
    i: int,
    k: int,
)
    requires
        0 <= i < ms.len(),
        ms[i].role == "assistant"@,
        0 <= k < ms[i].tool_calls.len(),
        forall|j: int, l: int|
            i <= j < ms.len() && ms[j].role == "assistant"@ && 0 <= l < ms[j].tool_calls.len() && (j
                > i || l > k) ==> (#[trigger] ms[j].tool_calls[l]).id != ms[i].tool_calls[k].id,
    ensures
        call_names(ms).dom().contains(ms[i].tool_calls[k].id),
        call_names(ms)[ms[i].tool_calls[k].id] == ms[i].tool_calls[k].name,
    decreases ms.len(),
{
    let t = ms.drop_last();
    let n = ms.len() - 1;
    let id = ms[i].tool_calls[k].id;
    if i < n {
        assert forall|j: int, l: int|
            i <= j < t.len() && t[j].role == "assistant"@ && 0 <= l < t[j].tool_calls.len() && (j > i
                || l > k) implies (#[trigger] t[j].tool_calls[l]).id != t[i].tool_calls[k].id by {
            assert(t[j] == ms[j]);
            assert(ms[j].tool_calls[l].id != id);
        }
        calls_keep_their_names(t, i, k);
        if ms[n].role == "assistant"@ {
            assert forall|l: int| 0 <= l < ms[n].tool_calls.len() implies (
            #[trigger] ms[n].tool_calls[l]).id != id by {}
            others_keep(call_names(t), ms[n].tool_calls, id);
        }
    } else {
        let c = ms[n].tool_calls;
        assert forall|l: int| k < l < c.len() implies (#[trigger] c[l]).id != id by {
            assert(ms[n].tool_calls[l].id != ms[i].tool_calls[k].id);
        }
        named_last(call_names(t), c, k);
    }
}

proof fn others_keep(m: Map<Seq<char>, Seq<char>>, calls: Seq<ToolCallView>, id: Seq<char>)
    requires
        m.dom().contains(id),
        forall|l: int| 0 <= l < calls.len() ==> (#[trigger] calls[l]).id != id,
    ensures
        with_calls(m, calls).dom().contains(id),
        with_calls(m, calls)[id] == m[id],
    decreases calls.len(),
{
    if calls.len() > 0 {
        let t = calls.drop_last();
        assert(forall|l: int| 0 <= l < t.len() ==> #[trigger] t[l] == calls[l]);
        others_keep(m, t, id);
        assert(calls[calls.len() - 1].id != id);
    }
}

proof fn named_last(m: Map<Seq<char>, Seq<char>>, calls: Seq<ToolCallView>, k: int)
    requires
        0 <= k < calls.len(),
        forall|l: int| k < l < calls.len() ==> (#[trigger] calls[l]).id != calls[k].id,
    ensures
        with_calls(m, calls).dom().contains(calls[k].id),
        with_calls(m, calls)[calls[k].id] == calls[k].name,
    decreases calls.len(),
{
    if k < calls.len() - 1 {
        let t = calls.drop_last();
        assert(forall|l: int| 0 <= l < t.len() ==> #[trigger] t[l] == calls[l]);
        named_last(m, t, k);
        assert(calls[calls.len() - 1].id != calls[k].id);
    }
}

/// The results before the last tool message are used up, but for those of
/// `find_symbol`, for reads of a range, and for those of at most a hundred and
/// twenty bytes, which stay.
pub proof fn used_results_become_stubs(
    names: Map<Seq<char>, Seq<char>>,
    id: Seq<char>,
    content: Seq<char>,
)
    requires
        names.dom().contains(id),
    ensures
        ({
            let ls = pieces::lines(content);
            let first = if ls.len() > 0 {
                ls[0]
            } else {
                Seq::empty()
            };
            let range = text::contains(first, "— lines "@) && text::contains(first, " of "@);
            let stays = names[id] == "find_symbol"@ || (names[id] == "read_file"@ && range)
                || number::width(content) <= 120;
            used_up(names, id, content) == if stays {
                content
            } else {
                stub(content)
            }
        }),
{
}

proof fn filled_first(ls: Seq<Seq<char>>, i: int)
    requires
        0 <= i < ls.len(),
        text::trim(ls[i]).len() > 0,
        forall|k: int| 0 <= k < i ==> text::trim(#[trigger] ls[k]).len() == 0,
    ensures
        first_filled(ls) == Some(ls[i]),
    decreases i,
{
    if i > 0 {
        let t = ls.skip(1);
        assert forall|k: int| 0 <= k < i - 1 implies text::trim(#[trigger] t[k]).len() == 0 by {
            assert(t[k] == ls[k + 1]);
        }
        assert(t[i - 1] == ls[i]);
        filled_first(t, i - 1);
    }
}

/// The stub of a result that shows no file tells its first line that is not
/// blank, cut to eighty bytes.
pub proof fn stub_tells_first_filled_line(content: Seq<char>, i: int)
    requires
        0 <= i < pieces::lines(content).len(),
        text::trim(pieces::lines(content)[i]).len() > 0,
        forall|k: int| 0 <= k < i ==> text::trim(#[trigger] pieces::lines(content)[k]).len() == 0,
        !text::begins(pieces::lines(content)[0], "["@),
    ensures
        ({
            let line = pieces::lines(content)[i];
            stub(content) == "[bash result consumed: "@ + (if number::width(line) <= 80 {
                line + "]"@
            } else {
                number::front_bytes(line, 80) + "…]"@
            })
        }),
{
    let line = pieces::lines(content)[i];
    filled_first(pieces::lines(content), i);
    assert(line.take(line.len() as int) =~= line);
    let f = number::front_bytes(line, 80);
    assert("[bash result consumed: "@ + f + "…]"@ =~= "[bash result consumed: "@ + (f + "…]"@));
    assert("[bash result consumed: "@ + f + "]"@ =~= "[bash result consumed: "@ + (f + "]"@));
}

proof fn path_in_brackets(path: Seq<char>, more: Seq<char>)
    requires
        path.len() > 0,
        path[0] != '[' && path[0] != ']' && !text::is_white(path[0]),
        !text::is_white(path.last()),
        !path.contains('—'),
        more.len() > 0,
        more.last() != '[' && more.last() != ']',
    ensures
        text::trim(
            pieces::before_text(
                text::trim_set("["@ + path + " — "@ + more + seq![']'], CharSet::OneOf("[]")),
                " —"@,
            ),
        ) == path,
{
    reveal_strlit("[");
    reveal_strlit("[]");
    reveal_strlit(" — ");
    reveal_strlit(" —");
    let first = "["@ + path + " — "@ + more + seq![']'];
    let inner = path + " — "@ + more;
    let set = CharSet::OneOf("[]");
    let b = "[]"@;
    assert(b[0] == '[' && b[1] == ']');
    assert(b.contains('[') && b.contains(']'));
    assert(!b.contains(path[0]));
    assert(!b.contains(more.last()));
    text::lead_bound(first, set, true);
    assert(first[0] == '[' && first[1] == path[0]);
    assert(text::lead(first, set, true) == 1);
    let tail = first.skip(1);
    assert(tail =~= inner.push(']'));
    text::trail_bound(tail, set);
    assert(tail[tail.len() - 2] == more.last());
    assert(tail.last() == ']');
    assert(text::trail(tail, set) == 1) by {
        if text::trail(tail, set) > 1 {
            assert(text::in_set(set, tail[tail.len() - 2]));
        }
        if text::trail(tail, set) == 0 {
            assert(!text::in_set(set, tail[tail.len() - 1]));
        }
    }
    assert(tail.take(tail.len() - 1) =~= inner);
    let k = path.len() as int;
    assert(inner.subrange(k, k + 2) =~= " —"@);
    assert(text::occurs_at(inner, " —"@, k));
    text::find_is_first(inner, " —"@);
    let j = text::find(inner, " —"@)->0;
    if j < k {
        assert(inner.subrange(j, j + 2)[1] == inner[j + 1]);
        if j + 1 < k {
            assert(inner[j + 1] == path[j + 1]);
        }
    }
    assert(inner.take(k) =~= path);
    text::lead_bound(path, CharSet::White, true);
    assert(text::lead(path, CharSet::White, true) == 0);
    assert(path.skip(0) =~= path);
    assert(path.take(k) =~= path);
    assert(text::trim(path) == path);
}

/// The stub of a read names the file and how many lines were shown.
pub proof fn stub_names_the_file(path: Seq<char>, more: Seq<char>, rest: Seq<char>)
    requires
        path.len() > 0,
        path[0] != '[' && path[0] != ']' && !text::is_white(path[0]),
        !text::is_white(path.last()),
        !path.contains('—') && !path.contains('\n'),
        more.len() > 0,
        !more.contains('\n'),
        more.last() != '\r' && more.last() != '[' && more.last() != ']',
    ensures
        ({
            let content = "["@ + path + " — "@ + more + "]\n"@ + rest;
            let shown = pieces::lines(content).filter(
                |l: Seq<char>| text::contains(l, " | "@),
            ).len();
            stub(content) == if shown > 0 {
                "[read "@ + path + " — "@ + number::decimal(shown) + " lines shown, consumed]"@
            } else {
                "[read "@ + path + " — consumed]"@
            }
        }),
{
    reveal_strlit("[");
    reveal_strlit("[]");
    reveal_strlit("]\n");
    reveal_strlit(" — ");
    reveal_strlit(" —");
    reveal_strlit("\n");
    let first = "["@ + path + " — "@ + more + seq![']'];
    let content = "["@ + path + " — "@ + more + "]\n"@ + rest;
    assert(content =~= first + "\n"@ + rest);
    if first.contains('\n') {
        let i = choose|i: int| 0 <= i < first.len() && first[i] == '\n';
        if 1 <= i < 1 + path.len() {
            assert(path[i - 1] == '\n');
        } else if 4 + path.len() <= i < first.len() - 1 {
            assert(more[i - 4 - path.len()] == '\n');
        }
    }
    pieces::line_ends_are_dropped(first, rest);
    assert(pieces::first_line(content) == first);
    assert(first.subrange(0, 1) =~= "["@);
    let n = 1 + path.len() as int;
    assert(first.subrange(n, n + 3) =~= " — "@);
    assert(text::occurs_at(first, " — "@, n));
    path_in_brackets(path, more);
    budget::lines_are_counted(pieces::lines(content), " | "@);
}

/// What shows a file that has been edited is replaced by a note: a read, an
/// edit's echo, or a search that found something in it. What is short or does
/// not name the file stays.
pub proof fn edited_file_is_not_shown(content: Seq<char>, path: Seq<char>, i: int)
    ensures
        number::width(content) <= 150 || !text::contains(content, path) ==> refreshed(content, path)
            == content,
        number::width(content) > 150 && text::contains(content, path) && ((content.len() > 0
            && content[0] == '[' && (text::contains(content, " | "@) || text::contains(
            content,
            " — "@,
        ))) || (text::contains(content, "✓ Edited"@) && text::contains(content, " | "@)) || (0 <= i
            < pieces::lines(content).len() && text::begins(pieces::lines(content)[i], path + ":"@)))
            ==> refreshed(content, path) == "[Stale — "@ + path
            + " was edited. Re-read for current content.]"@,
        refreshed(content, path) == content || refreshed(content, path) == "[Stale — "@ + path
            + " was edited. Re-read for current content.]"@,
{
    reveal_strlit("[");
    if content.len() > 0 && content[0] == '[' {
        assert(content.subrange(0, 1) =~= "["@);
    }
}

proof fn last_tool_is_behind(ms: Seq<MessageView>, k: int)
    requires
        0 <= k < ms.len(),
        ms[k].role == "tool"@,
    ensures
        k <= results::last_tool(ms) < ms.len(),
    decreases ms.len(),
{
    if ms.last().role != "tool"@ {
        assert(ms.drop_last()[k] == ms[k]);
        last_tool_is_behind(ms.drop_last(), k);
    }
}

/// Each result in a tool message that another tool message follows is used up,
/// by the name of its call; the texts beside it stay.
pub proof fn old_results_are_used_up(ms: Seq<MessageView>, i: int, k: int)
    requires
        0 <= i < k < ms.len(),
        ms[i].role == "tool"@,
        ms[k].role == "tool"@,
    ensures
        ms[i].content is Text ==> settled(ms)[i] == ms[i],
        ms[i].content matches ContentView::Parts(ps) ==> (
        settled(ms)[i].content matches ContentView::Parts(qs) && qs.len() == ps.len() && (forall|j: int|
            0 <= j < ps.len() ==> match #[trigger] ps[j] {
                PartView::Text(t) => qs[j] == ps[j],
                PartView::ToolResult(id, c) => qs[j] == PartView::ToolResult(
                    id,
                    used_up(call_names(ms), id, c),
                ),
            })),
{
    reveal_strlit("assistant");
    reveal_strlit("tool");
    assert("assistant"@.len() != "tool"@.len());
    last_tool_of_quieted(ms);
    last_tool_is_behind(ms, k);
    names_of_quieted(ms, quieted(ms));
}

proof fn names_of_quieted(a: Seq<MessageView>, b: Seq<MessageView>)
    requires
        a.len() == b.len(),
        forall|i: int|
            0 <= i < a.len() ==> (#[trigger] a[i]).role == b[i].role && a[i].tool_calls
                == b[i].tool_calls,
    ensures
        call_names(a) == call_names(b),
    decreases a.len(),
{
    if a.len() > 0 {
        assert forall|i: int| 0 <= i < a.drop_last().len() implies (
        #[trigger] a.drop_last()[i]).role == b.drop_last()[i].role && a.drop_last()[i].tool_calls
            == b.drop_last()[i].tool_calls by {
            assert(a[i].role == b[i].role);
        }
        names_of_quieted(a.drop_last(), b.drop_last());
        assert(a[a.len() - 1].role == b[a.len() - 1].role);
    }
}

} // verus!
