//! A tool call from its request to its result.

use crate::budget;
use crate::budget::LoopDetector;
use crate::cache;
use crate::cache::{CacheView, FileCache, OnDisk};
use crate::client;
use crate::client::{ContentPart, Message, MessageView, PartView, ToolCall, ToolCallView};
use crate::consumed;
use crate::consumed::evict_stale_content;
use crate::events;
use crate::events::{EventView, UiEvent};
use crate::history;
use crate::history::{History, RecordView};
use crate::json;
use crate::json::{parse_json, print_json, Json, JsonView};
use crate::number;
use crate::number::{parse_digits, signed_of};
use crate::pieces;
use crate::pieces::{join_with, lines_of};
use crate::text;
use crate::text::{begins_with, count, find_str, from_chars, holds, lead_chars, listed, one_of, same, strip_prefix, take_chars, to_chars, trimmed, without_first, CharSet};
use vstd::prelude::*;

verus! {

broadcast use crate::text::views_push;

// ── Kinds of tools ───────────────────────────────────────────────────────────

/// What a call does.
#[derive(Debug)]
pub enum ToolKind {
    /// Reads a file.
    Read { path: String, has_range: bool, is_symbols: bool },
    /// Writes a file.
    Mutate { path: String },
    /// Anything else.
    Other { is_bash: bool },
}

/// What a `ToolKind` says.
pub enum KindView {
    Read { path: Seq<char>, has_range: bool, is_symbols: bool },
    Mutate { path: Seq<char> },
    Other { is_bash: bool },
}

impl View for ToolKind {
    type V = KindView;

    open spec fn view(&self) -> KindView {
        match self {
            ToolKind::Read { path, has_range, is_symbols } => KindView::Read {
                path: path@,
                has_range: *has_range,
                is_symbols: *is_symbols,
            },
            ToolKind::Mutate { path } => KindView::Mutate { path: path@ },
            ToolKind::Other { is_bash } => KindView::Other { is_bash: *is_bash },
        }
    }
}

pub open spec fn text_or_empty(v: JsonView) -> Seq<char> {
    match v.text() {
        Some(s) => s,
        None => Seq::empty(),
    }
}

/// What a call of a tool does.
pub open spec fn kind_of(name: Seq<char>, args: JsonView) -> KindView {
    if name == "read_file"@ {
        KindView::Read {
            path: text_or_empty(args.at("path"@)),
            has_range: !(args.at("line_range"@) is Null),
            is_symbols: args.at("symbols"@) == JsonView::Bool(true),
        }
    } else if history::edits().contains(name) {
        KindView::Mutate { path: text_or_empty(args.at("path"@)) }
    } else {
        KindView::Other { is_bash: name == "bash"@ }
    }
}

fn path_of(args: &Json) -> (r: String)
    ensures
        r@ == text_or_empty(args@.at("path"@)),
{
    match args.text_of("path") {
        Some(s) => s,
        None => String::new(),
    }
}

impl ToolKind {
    /// What a call of a tool does.
    pub fn classify(name: &str, args: &Json) -> (r: Self)
        ensures
            r@ == kind_of(name@, args@),
    {
        let edit_tools = ["write_file", "edit_file", "patch_file"];
        assert(text::texts(edit_tools@) =~= history::edits());
        if same(name, "read_file") {
            let has_range = match args.get("line_range") {
                Some(Json::Null) => false,
                Some(_) => true,
                None => false,
            };
            let is_symbols = match args.get("symbols") {
                Some(Json::Bool(b)) => *b,
                _ => false,
            };
            ToolKind::Read { path: path_of(args), has_range, is_symbols }
        } else if one_of(name, &edit_tools) {
            ToolKind::Mutate { path: path_of(args) }
        } else {
            ToolKind::Other { is_bash: same(name, "bash") }
        }
    }
}

// ── Arguments in short ───────────────────────────────────────────────────────

/// A value in short: texts up to 60 characters, others up to 40.
pub open spec fn short_value(v: JsonView) -> Seq<char> {
    match v {
        JsonView::Text(s) => if s.len() > 60 {
            "\""@ + s.take(57) + "…\""@
        } else {
            "\""@ + s + "\""@
        },
        _ => if json::json_print(v).len() > 40 {
            json::json_print(v).take(37) + "…"@
        } else {
            json::json_print(v)
        },
    }
}

/// Arguments in short.
pub open spec fn short_args(args: JsonView) -> Seq<char> {
    match args {
        JsonView::Object(ms) => pieces::join(
            Seq::new(ms.len(), |i: int| ms[i].0 + "="@ + short_value(ms[i].1)),
            ", "@,
        ),
        _ => json::json_print(args),
    }
}

fn show_value(v: &Json) -> (r: String)
    ensures
        r@ == short_value(v@),
{
    match v {
        Json::Text(s) => {
            let mut out = "\"".to_owned();
            if count(s.as_str()) > 60 {
                out.append(take_chars(s.as_str(), 57).as_str());
                out.append("…\"");
            } else {
                out.append(s.as_str());
                out.append("\"");
            }
            out
        },
        _ => {
            let s = print_json(v);
            if count(s.as_str()) > 40 {
                let mut out = take_chars(s.as_str(), 37);
                out.append("…");
                out
            } else {
                s
            }
        },
    }
}

/// Arguments in short.
pub fn format_args_summary(args: &Json) -> (r: String)
    ensures
        r@ == short_args(args@),
{
    match args {
        Json::Object(ms) => {
            let ghost mv = args@->Object_0;
            let ghost goal = Seq::new(mv.len(), |i: int| mv[i].0 + "="@ + short_value(mv[i].1));
            assert(mv.len() == ms@.len());
            let mut pairs: Vec<String> = Vec::new();
            let mut i: usize = 0;
            while i < ms.len()
                invariant
                    i <= ms.len(),
                    pairs.len() == i,
                    mv == args@->Object_0,
                    *args == Json::Object(*ms),
                    mv.len() == ms@.len(),
                    forall|k: int|
                        0 <= k < i ==> (#[trigger] pairs@[k])@ == mv[k].0 + "="@ + short_value(
                            mv[k].1,
                        ),
                decreases ms.len() - i,
            {
                assert(mv[i as int] == (ms@[i as int].0@, ms@[i as int].1@));
                let mut s = ms[i].0.clone();
                s.append("=");
                s.append(show_value(&ms[i].1).as_str());
                pairs.push(s);
                i += 1;
            }
            assert(text::views(pairs@) =~= goal);
            join_with(&pairs, ", ")
        },
        _ => print_json(args),
    }
}

// ── Before the tool runs ─────────────────────────────────────────────────────

/// How a call starts.
#[derive(Debug)]
pub enum CallStart {
    /// It is refused, and this is its result.
    Refused { content: String },
    /// It does not run, and this stands for what it gave back.
    Stopped { kind: ToolKind, content: String },
    /// It may run.
    Ready { kind: ToolKind, args: Json },
}

/// What a `CallStart` says.
pub enum StartView {
    Refused { content: Seq<char> },
    Stopped { kind: KindView, content: Seq<char> },
    Ready { kind: KindView, args: JsonView },
}

impl View for CallStart {
    type V = StartView;

    open spec fn view(&self) -> StartView {
        match self {
            CallStart::Refused { content } => StartView::Refused { content: content@ },
            CallStart::Stopped { kind, content } => StartView::Stopped {
                kind: kind@,
                content: content@,
            },
            CallStart::Ready { kind, args } => StartView::Ready { kind: kind@, args: args@ },
        }
    }
}

pub open spec fn unread_arguments(error: Seq<char>) -> Seq<char> {
    "[Error parsing tool arguments: "@ + error + "]"@
}

pub open spec fn written_before(path: Seq<char>) -> Seq<char> {
    "[Not executed: '"@ + path
        + "' was already modified by an earlier call in this batch. Re-plan this edit after seeing that result — use fresh line numbers and hashes from the post-edit context above.]"@
}

pub open spec fn loop_note(name: Seq<char>) -> Seq<char> {
    "[Loop detected: "@ + name
        + " called with identical arguments. Try a different approach or more specific arguments.]"@
}

pub open spec fn dry_note(name: Seq<char>) -> Seq<char> {
    "[dry-run: "@ + name + " not executed]"@
}

/// Whether a kind writes a file that was written before.
pub open spec fn writes_again(kind: KindView, written: Seq<Seq<char>>) -> bool {
    match kind {
        KindView::Mutate { path } => written.contains(path),
        _ => false,
    }
}

pub open spec fn path_in(kind: KindView) -> Seq<char> {
    match kind {
        KindView::Read { path, has_range, is_symbols } => path,
        KindView::Mutate { path } => path,
        KindView::Other { is_bash } => Seq::empty(),
    }
}

/// How a call starts whose arguments were read: what becomes of it, what is
/// told of it, and which calls are remembered then.
pub open spec fn started(
    tc: ToolCallView,
    args: Result<JsonView, Seq<char>>,
    written: Seq<Seq<char>>,
    seen: Seq<Seq<char>>,
    dry_run: bool,
) -> (StartView, Seq<EventView>, Seq<Seq<char>>) {
    match args {
        Err(e) => (StartView::Refused { content: unread_arguments(e) }, Seq::empty(), seen),
        Ok(v) => {
            let kind = kind_of(tc.name, v);
            let fp = budget::fingerprint(tc.name, tc.arguments);
            if writes_again(kind, written) {
                (
                    StartView::Refused { content: written_before(path_in(kind)) },
                    seq![
                        EventView::ToolResult {
                            summary: "⚠ skipped dependent edit on "@ + path_in(kind),
                        },
                    ],
                    seen,
                )
            } else if budget::last_four(seen).contains(fp) {
                (
                    StartView::Stopped { kind, content: loop_note(tc.name) },
                    seq![EventView::LoopWarning { tool_name: tc.name }],
                    budget::noted(seen, fp),
                )
            } else if dry_run {
                (
                    StartView::Stopped { kind, content: dry_note(tc.name) },
                    Seq::empty(),
                    budget::noted(seen, fp),
                )
            } else {
                (StartView::Ready { kind, args: v }, Seq::empty(), budget::noted(seen, fp))
            }
        },
    }
}

pub open spec fn parsed_view(r: Result<Json, String>) -> Result<JsonView, Seq<char>> {
    match r {
        Ok(j) => Ok(j@),
        Err(e) => Err(e@),
    }
}

fn join3(a: &str, b: &str, c: &str) -> (r: String)
    ensures
        r@ == a@ + b@ + c@,
{
    let mut s = a.to_owned();
    s.append(b);
    s.append(c);
    s
}

/// Starts a call whose arguments were read.
pub fn begin_parsed(
    tc: &ToolCall,
    args: Result<Json, String>,
    written: &Vec<String>,
    detector: &mut LoopDetector,
    dry_run: bool,
) -> (r: (CallStart, Vec<UiEvent>))
    ensures
        started(tc@, parsed_view(args), text::views(written@), old(detector)@, dry_run) == (
            r.0@,
            events::event_views(r.1@),
            final(detector)@,
        ),
{
    let mut told: Vec<UiEvent> = Vec::new();
    assert(events::event_views(told@) =~= Seq::<EventView>::empty());
    let v = match args {
        Ok(v) => v,
        Err(e) => {
            let content = join3("[Error parsing tool arguments: ", e.as_str(), "]");
            return (CallStart::Refused { content }, told);
        },
    };
    let kind = ToolKind::classify(tc.name.as_str(), &v);
    if let ToolKind::Mutate { path } = &kind {
        if listed(path.as_str(), written) {
            let content = join3(
                "[Not executed: '",
                path.as_str(),
                "' was already modified by an earlier call in this batch. Re-plan this edit after seeing that result — use fresh line numbers and hashes from the post-edit context above.]",
            );
            let mut summary = "⚠ skipped dependent edit on ".to_owned();
            summary.append(path.as_str());
            told.push(UiEvent::ToolResult { summary });
            assert(events::event_views(told@) =~= seq![told@[0]@]);
            return (CallStart::Refused { content }, told);
        }
    }
    if detector.record(tc.name.as_str(), tc.arguments.as_str()) {
        told.push(UiEvent::LoopWarning { tool_name: tc.name.clone() });
        assert(events::event_views(told@) =~= seq![told@[0]@]);
        let content = join3(
            "[Loop detected: ",
            tc.name.as_str(),
            " called with identical arguments. Try a different approach or more specific arguments.]",
        );
        return (CallStart::Stopped { kind, content }, told);
    }
    if dry_run {
        let content = join3("[dry-run: ", tc.name.as_str(), " not executed]");
        return (CallStart::Stopped { kind, content }, told);
    }
    (CallStart::Ready { kind, args: v }, told)
}

/// Starts a call: it is refused where its arguments are not JSON or where
/// its file was written before in the batch, and does not run where it comes
/// once too often or where nothing is to run.
pub fn begin_call(
    tc: &ToolCall,
    written: &Vec<String>,
    detector: &mut LoopDetector,
    dry_run: bool,
) -> (r: (CallStart, Vec<UiEvent>))
    ensures
        started(
            tc@,
            json::json_read(tc.arguments@),
            text::views(written@),
            old(detector)@,
            dry_run,
        ) == (r.0@, events::event_views(r.1@), final(detector)@),
{
    let args = parse_json(tc.arguments.as_str());
    begin_parsed(tc, args, written, detector, dry_run)
}

// ── The cache ────────────────────────────────────────────────────────────────

/// A line number in a list.
pub open spec fn number_at(v: Seq<JsonView>, i: int) -> Option<u64> {
    if i < v.len() {
        match v[i] {
            JsonView::Number(s) => number::unsigned(s),
            _ => None,
        }
    } else {
        None
    }
}

/// The lines that a list `[first, last]` asks for, counted from zero, and
/// without the last.
pub open spec fn asked_lines(v: Seq<JsonView>) -> (int, Option<int>) {
    (
        match number_at(v, 0) {
            Some(n) => if n > 0 {
                n - 1
            } else {
                0
            },
            None => 0,
        },
        match number_at(v, 1) {
            Some(n) => Some(n as int),
            None => None,
        },
    )
}

/// What the cache has for a call: what is said to the model, and how many
/// lines it is. `key` and `mtime` are of the file that the call reads.
pub open spec fn cached(
    c: CacheView,
    kind: KindView,
    args: JsonView,
    key: Seq<char>,
    mtime: Option<i128>,
) -> Option<(Seq<char>, nat)> {
    match (kind, cache::fresh(c, key, mtime)) {
        (KindView::Read { path, has_range: false, is_symbols: false }, Some(e)) => Some(
            (cache::hit_message(e.full_output, cache::turns_between(c, e)), e.lines.len()),
        ),
        (KindView::Read { path, has_range: true, is_symbols: false }, Some(e)) =>
            match args.at("line_range"@).list() {
                Some(v) => {
                    let total = e.lines.len() as int;
                    let (start, end) = asked_lines(v);
                    match cache::window(
                        total,
                        start,
                        match end {
                            Some(n) => n,
                            None => total,
                        },
                    ) {
                        Some((s, t)) => Some(
                            (
                                cache::range_message(
                                    cache::window_text(path, e.lines, s, t),
                                    cache::turns_between(c, e),
                                ),
                                (t - s) as nat,
                            ),
                        ),
                        None => None,
                    }
                },
                None => None,
            },
        _ => None,
    }
}

fn to_index(n: u64) -> (r: usize)
    ensures
        n <= usize::MAX ==> r == n,
        n > usize::MAX ==> r == usize::MAX,
{
    if n <= usize::MAX as u64 {
        n as usize
    } else {
        usize::MAX
    }
}

fn read_number(v: &Vec<Json>, i: usize) -> (r: Option<u64>)
    ensures
        r == number_at(json::json_views(v@), i as int),
{
    if i < v.len() {
        match &v[i] {
            Json::Number(s) => parse_digits(s.as_str()),
            _ => None,
        }
    } else {
        None
    }
}

fn find_in_cache(cache: &FileCache, kind: &ToolKind, args: &Json, at: &OnDisk) -> (r: Option<
    (String, usize),
>)
    ensures
        match r {
            Some((s, n)) => cached(cache@, kind@, args@, at.key@, at.mtime) == Some((s@, n as nat)),
            None => cached(cache@, kind@, args@, at.key@, at.mtime) is None,
        },
{
    match kind {
        ToolKind::Read { path, has_range: false, is_symbols: false } => match cache.check(at) {
            Some(hit) => {
                let lines: usize = hit.total_lines;
                Some((hit.into_message(), lines))
            },
            None => None,
        },
        ToolKind::Read { path, has_range: true, is_symbols: false } => match args.get(
            "line_range",
        ) {
            Some(Json::List(v)) => {
                let ghost vv = json::json_views(v@);
                assert(Json::List(*v)@ == JsonView::List(vv)) by {
                    assert(Json::List(*v)@->List_0 =~= vv);
                }
                let start: usize = match read_number(v, 0) {
                    Some(n) => to_index(if n > 0 {
                        n - 1
                    } else {
                        0
                    }),
                    None => 0,
                };
                let end: usize = match read_number(v, 1) {
                    Some(n) => to_index(n),
                    None => usize::MAX,
                };
                match cache.check_range(path.as_str(), at, start, end) {
                    Some(hit) => {
                        let lines: usize = hit.range_lines;
                        Some((hit.into_message(), lines))
                    },
                    None => None,
                }
            },
            _ => None,
        },
        _ => None,
    }
}

/// Answers a call from the cache, where it can: the result goes into the
/// history, and the hit is told. `at` is where the file that the call reads
/// lies.
pub fn look_in_cache(
    tc: &ToolCall,
    kind: &ToolKind,
    args: &Json,
    at: &OnDisk,
    cache: &FileCache,
    history: &mut History,
) -> (r: Option<(ContentPart, UiEvent)>)
    ensures
        match (r, cached(cache@, kind@, args@, at.key@, at.mtime)) {
            (Some((part, ev)), Some((message, lines))) => part@ == PartView::ToolResult(
                tc.id@,
                history::summary_of(tc.name@, message),
            ) && ev@ == (EventView::CacheHit { path: path_in(kind@), lines }) && final(history)@
                == old(history)@.push(
                RecordView {
                    tool_name: tc.name@,
                    full_output: message,
                    summary: history::summary_of(tc.name@, message),
                },
            ),
            (None, None) => final(history)@ == old(history)@,
            _ => false,
        },
{
    match find_in_cache(cache, kind, args, at) {
        Some((message, lines)) => {
            let (content, _) = history.record(tc.name.as_str(), message.as_str());
            let path = match kind {
                ToolKind::Read { path, has_range, is_symbols } => path.clone(),
                ToolKind::Mutate { path } => path.clone(),
                ToolKind::Other { is_bash } => String::new(),
            };
            Some(
                (
                    ContentPart::ToolResult { tool_use_id: tc.id.clone(), content },
                    UiEvent::CacheHit { path, lines },
                ),
            )
        },
        None => None,
    }
}

/// The cache after a call ran. `content` is what the file that it read
/// holds.
pub open spec fn cache_after(
    c: CacheView,
    kind: KindView,
    args: JsonView,
    key: Seq<char>,
    mtime: Option<i128>,
    content: Option<Seq<char>>,
) -> CacheView {
    match kind {
        KindView::Read { path, has_range, is_symbols: false } => match content {
            Some(s) => cache::with_file(c, path, key, mtime, pieces::lines(s)),
            None => c,
        },
        KindView::Mutate { path } => CacheView { entries: c.entries.remove(key), ..c },
        KindView::Other { is_bash: true } => match args.at("command"@).text() {
            Some(cmd) => CacheView { entries: cache::unmentioned(c.entries, cmd), ..c },
            None => c,
        },
        _ => c,
    }
}

/// Keeps the cache right after a call ran. `at` is where the file of the
/// call lies, and `content` is what it holds, where it could be read.
pub fn update_cache(
    kind: &ToolKind,
    args: &Json,
    at: OnDisk,
    content: Option<String>,
    cache: &mut FileCache,
)
    ensures
        final(cache)@ == cache_after(
            old(cache)@,
            kind@,
            args@,
            at.key@,
            at.mtime,
            text::opt_text(content),
        ),
{
    match kind {
        ToolKind::Read { path, has_range, is_symbols: false } => {
            if let Some(s) = content {
                cache.store(path.as_str(), at, s);
            }
        },
        ToolKind::Mutate { path } => {
            cache.invalidate(at.key.as_str());
        },
        ToolKind::Other { is_bash: true } => {
            if let Some(cmd) = args.text_of("command") {
                cache.invalidate_if_mentioned(cmd.as_str());
            }
        },
        _ => {},
    }
}

// ── Where a call goes ────────────────────────────────────────────────────────

/// Who answers a call.
#[derive(Debug, PartialEq, Eq, Structural, Clone, Copy)]
pub enum Route {
    Bash,
    FindSymbol,
    AskUser,
    /// Writes a file.
    Edit,
    /// Another tool of our own.
    Native,
    /// A server of tools.
    Mcp,
}

pub open spec fn route_of(name: Seq<char>, is_native: bool) -> Route {
    if name == "bash"@ {
        Route::Bash
    } else if name == "find_symbol"@ {
        Route::FindSymbol
    } else if name == "ask_user"@ {
        Route::AskUser
    } else if history::edits().contains(name) {
        Route::Edit
    } else if is_native {
        Route::Native
    } else {
        Route::Mcp
    }
}

/// Who answers a call of a tool. `is_native` is whether it is one of our own.
pub fn route(name: &str, is_native: bool) -> (r: Route)
    ensures
        r == route_of(name@, is_native),
{
    let edit_tools = ["write_file", "edit_file", "patch_file"];
    assert(text::texts(edit_tools@) =~= history::edits());
    if same(name, "bash") {
        Route::Bash
    } else if same(name, "find_symbol") {
        Route::FindSymbol
    } else if same(name, "ask_user") {
        Route::AskUser
    } else if one_of(name, &edit_tools) {
        Route::Edit
    } else if is_native {
        Route::Native
    } else {
        Route::Mcp
    }
}

/// What a call gives back. `current` is what the file of a failed edit
/// holds.
pub open spec fn given_back(
    route: Route,
    result: Result<Seq<char>, Seq<char>>,
    current: Option<Seq<char>>,
) -> Seq<char> {
    match result {
        Ok(s) => s,
        Err(e) => match route {
            Route::AskUser => e,
            Route::Mcp => "[MCP tool error: "@ + e + "]"@,
            Route::Edit => "[Tool error: "@ + e + "]"@ + (match current {
                Some(c) => "\n\nCurrent file content for reference:\n"@ + c,
                None => Seq::empty(),
            }),
            _ => "[Tool error: "@ + e + "]"@,
        },
    }
}

/// What a search for a symbol gives back without an index.
pub fn no_graph() -> (r: &'static str)
    ensures
        r@ == "[find_symbol: no project graph available for this session]"@,
{
    "[find_symbol: no project graph available for this session]"
}

/// What a call gives back, from what the tool gave or what went wrong.
pub fn dispatch_tool(route: Route, result: Result<String, String>, current: Option<&str>) -> (r:
    String)
    ensures
        r@ == given_back(
            route,
            match result {
                Ok(s) => Ok(s@),
                Err(e) => Err(e@),
            },
            match current {
                Some(c) => Some(c@),
                None => None,
            },
        ),
{
    match result {
        Ok(s) => s,
        Err(e) => match route {
            Route::AskUser => e,
            Route::Mcp => join3("[MCP tool error: ", e.as_str(), "]"),
            Route::Edit => {
                let mut s = join3("[Tool error: ", e.as_str(), "]");
                let ghost base = s@;
                match current {
                    Some(c) => {
                        let mut hint = "\n\nCurrent file content for reference:\n".to_owned();
                        hint.append(c);
                        s.append(hint.as_str());
                    },
                    None => {
                        assert(base + Seq::<char>::empty() =~= base);
                    },
                }
                s
            },
            _ => join3("[Tool error: ", e.as_str(), "]"),
        },
    }
}

// ── After the tool ran ───────────────────────────────────────────────────────

/// A command that ran after an edit.
#[derive(Debug)]
pub struct HookOutcome {
    pub cmd: String,
    pub output: String,
    pub exit_code: i32,
}

/// What a `HookOutcome` says.
#[verifier::ext_equal]
pub struct OutcomeView {
    pub cmd: Seq<char>,
    pub output: Seq<char>,
    pub exit_code: int,
}

impl View for HookOutcome {
    type V = OutcomeView;

    open spec fn view(&self) -> OutcomeView {
        OutcomeView { cmd: self.cmd@, output: self.output@, exit_code: self.exit_code as int }
    }
}

pub open spec fn outcome_views(v: Seq<HookOutcome>) -> Seq<OutcomeView> {
    Seq::new(v.len(), |i: int| v[i]@)
}

/// What the model is told of a command that ran after its edit.
pub open spec fn hook_note(h: OutcomeView) -> Seq<char> {
    if h.exit_code == 0 && text::trim(h.output).len() == 0 {
        "\n\n⚙ `"@ + h.cmd + "` ✓"@
    } else {
        "\n\n⚙ `"@ + h.cmd + "` (exit "@ + number::signed(h.exit_code) + "):\n"@ + h.output
    }
}

pub open spec fn hook_notes(hs: Seq<OutcomeView>) -> Seq<char>
    decreases hs.len(),
{
    if hs.len() == 0 {
        Seq::empty()
    } else {
        hook_notes(hs.drop_last()) + hook_note(hs.last())
    }
}

pub open spec fn hook_events(hs: Seq<OutcomeView>) -> Seq<EventView> {
    Seq::new(
        hs.len(),
        |i: int|
            EventView::HookOutput {
                event: "on_edit"@,
                output: hs[i].output,
                exit_code: hs[i].exit_code,
            },
    )
}

/// The digits at the start of a text as a number of at most `max`, zero
/// where there are none or too many.
pub open spec fn leading_number(s: Seq<char>, max: int) -> nat {
    let d = s.take(text::lead(s, CharSet::Digit, true) as int);
    if d.len() > 0 && number::digits_value(d) <= max {
        number::digits_value(d)
    } else {
        0
    }
}

/// The 32-bit number at the start of a text, zero where there is none.
pub open spec fn leading_code(s: Seq<char>) -> int {
    if s.len() > 0 && s[0] == '-' {
        -leading_number(s.skip(1), i32::MAX + 1)
    } else {
        leading_number(s, i32::MAX as int) as int
    }
}

/// Whether a line tells of a command that ended with a fault.
pub open spec fn tells_fault(line: Seq<char>) -> bool {
    match text::behind(line, "⚙ "@) {
        Some(rest) => match text::find(rest, "(exit "@) {
            Some(i) => leading_code(rest.skip(i + 6)) != 0,
            None => false,
        },
        None => false,
    }
}

pub open spec fn some_fault(ls: Seq<Seq<char>>) -> bool {
    exists|i: int| 0 <= i < ls.len() && tells_fault(#[trigger] ls[i])
}

/// Whether a result tells that something went wrong.
pub open spec fn had_error(content: Seq<char>) -> bool {
    ||| text::contains(content, "[Tool error"@)
    ||| text::contains(content, "[Not executed"@)
    ||| text::contains(content, "✗ build check failed"@)
    ||| text::contains(content, "⚠ FILE WRITTEN BUT BUILD BROKEN"@)
    ||| text::contains(content, "⚠ skipped dependent edit"@)
    ||| text::contains(content, "[Loop detected"@)
    ||| text::contains(content, "[dry-run"@)
    ||| text::contains(content, "(exit "@) && some_fault(pieces::lines(content))
}

fn read_leading(s: &str, max: u64) -> (r: u64)
    ensures
        r == leading_number(s@, max as int),
{
    let v = to_chars(s);
    assert(v@.skip(0) =~= s@);
    let n: usize = lead_chars(&v, 0, CharSet::Digit, true);
    let d = from_chars(&v, 0, n);
    assert(d@ =~= s@.take(n as int));
    proof {
        leading_digits(s@, n as int);
    }
    if n > 0 {
        match parse_digits(d.as_str()) {
            Some(k) => if k <= max {
                k
            } else {
                0
            },
            None => 0,
        }
    } else {
        0
    }
}

proof fn leading_digits(s: Seq<char>, n: int)
    requires
        n == text::lead(s, CharSet::Digit, true),
    ensures
        0 <= n <= s.len(),
        n > 0 ==> number::all_digits(s.take(n)),
{
    text::lead_bound(s, CharSet::Digit, true);
}

fn is_failure(s: &str) -> (r: bool)
    ensures
        r == (leading_code(s@) != 0),
{
    proof {
        reveal_strlit("-");
        assert(text::begins(s@, "-"@) <==> s@.len() > 0 && s@[0] == '-') by {
            if s@.len() > 0 {
                assert(s@.subrange(0, 1)[0] == s@[0]);
                assert("-"@[0] == '-');
                if s@[0] == '-' {
                    assert(s@.subrange(0, 1) =~= "-"@);
                }
            }
        }
    }
    if begins_with(s, "-") {
        read_leading(without_first(s, 1).as_str(), 0x8000_0000) != 0
    } else {
        read_leading(s, 0x7fff_ffff) != 0
    }
}

fn is_fault(line: &str) -> (r: bool)
    ensures
        r == tells_fault(line@),
{
    match strip_prefix(line, "⚙ ") {
        Some(rest) => {
            proof {
                reveal_strlit("(exit ");
                text::find_is_first(rest@, "(exit "@);
            }
            match find_str(rest.as_str(), "(exit ") {
                Some(i) => is_failure(without_first(rest.as_str(), i + 6).as_str()),
                None => false,
            }
        },
        None => false,
    }
}

fn has_fault(content: &str) -> (r: bool)
    ensures
        r == some_fault(pieces::lines(content@)),
{
    let ls = lines_of(content);
    let ghost lv = text::views(ls@);
    let mut i: usize = 0;
    while i < ls.len()
        invariant
            i <= ls.len(),
            lv == text::views(ls@),
            lv == pieces::lines(content@),
            forall|k: int| 0 <= k < i ==> !tells_fault(#[trigger] lv[k]),
        decreases ls.len() - i,
    {
        assert(lv[i as int] == ls@[i as int]@);
        if is_fault(ls[i].as_str()) {
            return true;
        }
        i += 1;
    }
    assert(lv.len() == ls@.len());
    false
}

/// Whether a result tells that something went wrong.
pub fn tells_error(content: &str) -> (r: bool)
    ensures
        r == had_error(content@),
{
    holds(content, "[Tool error") || holds(content, "[Not executed") || holds(
        content,
        "✗ build check failed",
    ) || holds(content, "⚠ FILE WRITTEN BUT BUILD BROKEN") || holds(
        content,
        "⚠ skipped dependent edit",
    ) || holds(content, "[Loop detected") || holds(content, "[dry-run") || (holds(
        content,
        "(exit ",
    ) && has_fault(content))
}

/// The lines behind the first that are shown where more is to be told, four
/// at most.
pub open spec fn more_lines(s: Seq<char>) -> Seq<EventView> {
    let ls = pieces::lines(s);
    let n = if ls.len() <= 1 {
        0
    } else if ls.len() <= 5 {
        ls.len() - 1
    } else {
        4
    };
    Seq::new(n as nat, |i: int| EventView::ToolResult { summary: "  "@ + ls[i + 1] })
}

/// A call that is done: its result, and what is told of it.
pub struct DoneView {
    pub content: Seq<char>,
    pub events: Seq<EventView>,
    pub written: Seq<Seq<char>>,
    pub messages: Seq<MessageView>,
    pub history: Seq<RecordView>,
}

/// The set of files with one more.
pub open spec fn with_path(written: Seq<Seq<char>>, path: Seq<char>) -> Seq<Seq<char>> {
    if written.contains(path) {
        written
    } else {
        written.push(path)
    }
}

/// Whether a result tells that the call changed nothing.
pub open spec fn did_nothing(raw: Seq<char>) -> bool {
    text::begins(raw, "[Tool error"@) || text::begins(raw, "[Not executed"@) || text::begins(
        raw,
        "[Loop detected"@,
    ) || text::begins(raw, "[dry-run"@)
}

/// Whether the commands for after an edit are to run: the call was an edit,
/// and it was made.
pub fn runs_edit_hooks(kind: &ToolKind, raw: &str) -> (r: bool)
    ensures
        r == (kind@ is Mutate && !did_nothing(raw@)),
{
    match kind {
        ToolKind::Mutate { .. } => !(begins_with(raw, "[Tool error") || begins_with(
            raw,
            "[Not executed",
        ) || begins_with(raw, "[Loop detected") || begins_with(raw, "[dry-run")),
        _ => false,
    }
}

/// A call that gave something back, or that did not run: the result for the
/// model, with what the commands after an edit said; and after an edit that
/// went well nothing of the file as it was is left.
pub open spec fn completed(
    tc: ToolCallView,
    kind: KindView,
    raw: Seq<char>,
    verbose: bool,
    hooks: Seq<OutcomeView>,
    written: Seq<Seq<char>>,
    messages: Seq<MessageView>,
    records: Seq<RecordView>,
) -> DoneView {
    let summary = history::summary_of(tc.name, raw);
    let recorded = records.push(
        RecordView { tool_name: tc.name, full_output: raw, summary },
    );
    let told = seq![EventView::ToolResult { summary: history::display_of(tc.name, raw) }] + (
    if verbose {
        more_lines(summary)
    } else {
        Seq::empty()
    });
    match kind {
        KindView::Mutate { path } => {
            let content = summary + hook_notes(hooks);
            let well = !text::contains(content, "[Tool error"@);
            DoneView {
                content,
                events: told + hook_events(hooks),
                written: with_path(written, path),
                messages: if well {
                    consumed::evicted(messages, path)
                } else {
                    messages
                },
                history: if well {
                    Seq::new(recorded.len(), |i: int| history::after_edit(recorded[i], path))
                } else {
                    recorded
                },
            }
        },
        _ => DoneView { content: summary, events: told, written, messages, history: recorded },
    }
}

fn tell_more(told: &mut Vec<UiEvent>, s: &str)
    ensures
        events::event_views(final(told)@) == events::event_views(old(told)@) + more_lines(s@),
{
    let ls = lines_of(s);
    let ghost lv = text::views(ls@);
    assert(lv.len() == ls@.len());
    let ghost before = events::event_views(told@);
    let mut i: usize = 1;
    assert(before + more_lines(s@).take(0) =~= before);
    while i < ls.len() && i < 5
        invariant
            1 <= i <= 5,
            ls.len() > 0 ==> i <= ls.len(),
            lv == text::views(ls@),
            lv == pieces::lines(s@),
            i - 1 <= more_lines(s@).len(),
            events::event_views(told@) == before + more_lines(s@).take(i - 1),
        decreases 5 - i,
    {
        let mut line = "  ".to_owned();
        line.append(ls[i].as_str());
        assert(lv[i as int] == ls@[i as int]@);
        let ev = UiEvent::ToolResult { summary: line };
        let ghost had = events::event_views(told@);
        told.push(ev);
        assert(events::event_views(told@) =~= had.push(ev@));
        assert(ev@ == more_lines(s@)[i - 1]);
        assert(more_lines(s@).take(i as int) =~= more_lines(s@).take(i - 1).push(ev@));
        assert(events::event_views(told@) =~= before + more_lines(s@).take(i as int));
        i += 1;
    }
    assert(more_lines(s@).take(i - 1) =~= more_lines(s@));
}

fn add_hooks(content: &mut String, told: &mut Vec<UiEvent>, hooks: &Vec<HookOutcome>)
    ensures
        final(content)@ == old(content)@ + hook_notes(outcome_views(hooks@)),
        events::event_views(final(told)@) == events::event_views(old(told)@) + hook_events(
            outcome_views(hooks@),
        ),
{
    let ghost hv = outcome_views(hooks@);
    let ghost c0 = content@;
    let ghost e0 = events::event_views(told@);
    let mut i: usize = 0;
    assert(hv.take(0) =~= Seq::<OutcomeView>::empty());
    assert(c0 + hook_notes(hv.take(0)) =~= c0);
    assert(e0 + hook_events(hv.take(0)) =~= e0);
    while i < hooks.len()
        invariant
            i <= hooks.len(),
            hv == outcome_views(hooks@),
            content@ == c0 + hook_notes(hv.take(i as int)),
            events::event_views(told@) == e0 + hook_events(hv.take(i as int)),
        decreases hooks.len() - i,
    {
        let h = &hooks[i];
        assert(hv.take(i + 1).drop_last() =~= hv.take(i as int));
        assert(hv.take(i + 1).last() == h@);
        let mut note = "\n\n⚙ `".to_owned();
        note.append(h.cmd.as_str());
        if h.exit_code == 0 && count(trimmed(h.output.as_str()).as_str()) == 0 {
            note.append("` ✓");
        } else {
            note.append("` (exit ");
            note.append(signed_of(h.exit_code as i64).as_str());
            note.append("):\n");
            note.append(h.output.as_str());
        }
        content.append(note.as_str());
        assert(content@ =~= c0 + hook_notes(hv.take(i + 1)));
        let ev = UiEvent::HookOutput {
            event: "on_edit".to_owned(),
            output: h.output.clone(),
            exit_code: h.exit_code,
        };
        let ghost had = events::event_views(told@);
        told.push(ev);
        assert(events::event_views(told@) =~= had.push(ev@));
        assert(events::event_views(told@) =~= e0 + hook_events(hv.take(i + 1)));
        i += 1;
    }
    assert(hv.take(i as int) =~= hv);
}

/// Ends a call that gave something back, or that did not run. `hooks` are
/// the commands that ran after an edit. Gives the result for the model, whether
/// it tells that something went wrong, and what is told.
pub fn finish_call(
    tc: &ToolCall,
    kind: &ToolKind,
    raw: &str,
    verbose: bool,
    hooks: &Vec<HookOutcome>,
    written: &mut Vec<String>,
    messages: &mut Vec<Message>,
    history: &mut History,
) -> (r: (ContentPart, bool, Vec<UiEvent>))
    ensures
        ({
            let d = completed(
                tc@,
                kind@,
                raw@,
                verbose,
                outcome_views(hooks@),
                text::views(old(written)@),
                client::message_views(old(messages)@),
                old(history)@,
            );
            &&& r.0@ == PartView::ToolResult(tc.id@, d.content)
            &&& r.1 == had_error(d.content)
            &&& events::event_views(r.2@) == d.events
            &&& text::views(final(written)@) == d.written
            &&& client::message_views(final(messages)@) == d.messages
            &&& final(history)@ == d.history
        }),
{
    let (model_output, shown) = history.record(tc.name.as_str(), raw);
    let mut content = model_output;
    let mut told: Vec<UiEvent> = Vec::new();
    told.push(UiEvent::ToolResult { summary: shown });
    assert(events::event_views(told@) =~= seq![told@[0]@]);
    let ghost first = events::event_views(told@);
    if verbose {
        tell_more(&mut told, content.as_str());
    } else {
        assert(first + Seq::<EventView>::empty() =~= first);
    }
    if let ToolKind::Mutate { path } = kind {
        add_hooks(&mut content, &mut told, hooks);
        if !holds(content.as_str(), "[Tool error") {
            history.compress_reads_for(path.as_str());
            evict_stale_content(messages, path.as_str());
        }
        if !listed(path.as_str(), written) {
            written.push(path.clone());
        }
    }
    let error = tells_error(content.as_str());
    (ContentPart::ToolResult { tool_use_id: tc.id.clone(), content }, error, told)
}

/// A call that is refused: its result tells that something went wrong.
pub fn refuse_call(tc: &ToolCall, content: String) -> (r: (ContentPart, bool))
    ensures
        r.0@ == PartView::ToolResult(tc.id@, content@),
        r.1,
{
    (ContentPart::ToolResult { tool_use_id: tc.id.clone(), content }, true)
}

// ── Laws of calls ────────────────────────────────────────────────────────────

/// A second write of a file in one batch is refused, whatever else holds.
pub proof fn second_write_is_refused(
    tc: ToolCallView,
    args: JsonView,
    written: Seq<Seq<char>>,
    path: Seq<char>,
    seen: Seq<Seq<char>>,
    dry_run: bool,
)
    requires
        kind_of(tc.name, args) == (KindView::Mutate { path }),
    ensures
        started(tc, Ok(args), with_path(written, path), seen, dry_run).0 == (StartView::Refused {
            content: written_before(path),
        }),
{
    if !written.contains(path) {
        assert(written.push(path)[written.len() as int] == path);
    }
}

/// Where nothing is to run, no call gets ready.
pub proof fn dry_run_runs_nothing(
    tc: ToolCallView,
    args: Result<JsonView, Seq<char>>,
    written: Seq<Seq<char>>,
    seen: Seq<Seq<char>>,
)
    ensures
        !(started(tc, args, written, seen, true).0 is Ready),
{
}

/// The same call twice in a row does not run the second time.
pub proof fn repeated_call_is_stopped(
    tc: ToolCallView,
    args: JsonView,
    written: Seq<Seq<char>>,
    seen: Seq<Seq<char>>,
)
    ensures
        ({
            let first = started(tc, Ok(args), written, seen, false);
            first.0 is Ready ==> started(tc, Ok(args), written, first.2, false).0
                == (StartView::Stopped {
                kind: kind_of(tc.name, args),
                content: loop_note(tc.name),
            })
        }),
{
    let fp = budget::fingerprint(tc.name, tc.arguments);
    budget::repeat_is_seen(seen, fp, Seq::empty());
}

/// Reads and edits are known by the tool's name, and by the path that they
/// are given; everything else is known by whether it is a command.
pub proof fn kinds_go_by_name(name: Seq<char>, args: JsonView, path: Seq<char>)
    requires
        args.at("path"@) == JsonView::Text(path),
    ensures
        kind_of("read_file"@, args) == (KindView::Read {
            path,
            has_range: args.at("line_range"@) != JsonView::Null,
            is_symbols: args.at("symbols"@) == JsonView::Bool(true),
        }),
        kind_of("write_file"@, args) == (KindView::Mutate { path }),
        kind_of("edit_file"@, args) == (KindView::Mutate { path }),
        kind_of("patch_file"@, args) == (KindView::Mutate { path }),
        kind_of("bash"@, args) == (KindView::Other { is_bash: true }),
        name != "read_file"@ && name != "write_file"@ && name != "edit_file"@ && name != "patch_file"@
            && name != "bash"@ ==> kind_of(name, args) == (KindView::Other { is_bash: false }),
{
    names_differ();
}

proof fn names_differ()
    ensures
        "read_file"@[0] == 'r',
        "bash"@[0] == 'b',
        "write_file"@[0] == 'w',
        "edit_file"@[0] == 'e',
        "patch_file"@[0] == 'p',
        "find_symbol"@[0] == 'f',
        "ask_user"@[0] == 'a',
        forall|t: Seq<char>| #[trigger] history::edits().contains(t) ==> t == "write_file"@ || t
            == "edit_file"@ || t == "patch_file"@,
        history::edits().contains("write_file"@),
        history::edits().contains("edit_file"@),
        history::edits().contains("patch_file"@),
{
    reveal_strlit("read_file");
    reveal_strlit("bash");
    reveal_strlit("write_file");
    reveal_strlit("edit_file");
    reveal_strlit("patch_file");
    reveal_strlit("find_symbol");
    reveal_strlit("ask_user");
    let e = history::edits();
    assert(e.len() == 3);
    assert(e[0] == "write_file"@ && e[1] == "edit_file"@ && e[2] == "patch_file"@);
}

/// A call runs, with the arguments that were read, where it does not write a
/// file again, was not among the last four, and is no dry run. It is then
/// noted, with what was noted before.
pub proof fn new_call_runs(
    tc: ToolCallView,
    args: JsonView,
    written: Seq<Seq<char>>,
    seen: Seq<Seq<char>>,
)
    requires
        kind_of(tc.name, args) matches KindView::Mutate { path } ==> !written.contains(path),
        forall|k: int|
            0 <= k < seen.len() && seen.len() - k <= 4 ==> #[trigger] seen[k] != budget::fingerprint(
                tc.name,
                tc.arguments,
            ),
    ensures
        ({
            let r = started(tc, Ok(args), written, seen, false);
            &&& r.0 == (StartView::Ready { kind: kind_of(tc.name, args), args })
            &&& r.1.len() == 0
            &&& r.2.len() > 0
            &&& r.2.last() == budget::fingerprint(tc.name, tc.arguments)
        }),
        started(tc, Ok(args), written, seen, true).0 is Stopped,
{
    let l = budget::last_four(seen);
    let fp = budget::fingerprint(tc.name, tc.arguments);
    if l.contains(fp) {
        let i = l.index_of(fp);
        assert(l[i] == seen[seen.len() - l.len() + i]);
    }
}

/// A call whose arguments cannot be read is refused, with the reason, and is
/// not noted.
pub proof fn unread_call_is_refused(
    tc: ToolCallView,
    error: Seq<char>,
    written: Seq<Seq<char>>,
    seen: Seq<Seq<char>>,
    dry_run: bool,
)
    ensures
        started(tc, Err(error), written, seen, dry_run) == (
            (StartView::Refused { content: "[Error parsing tool arguments: "@ + error + "]"@ }),
            Seq::<EventView>::empty(),
            seen,
        ),
{
}

/// A read of lines `a` to `b` of a file that is kept gives these lines.
pub proof fn kept_lines_are_given(
    c: CacheView,
    path: Seq<char>,
    args: JsonView,
    key: Seq<char>,
    mtime: Option<i128>,
    a: u64,
    b: u64,
)
    requires
        cache::fresh(c, key, mtime) is Some,
        args.at("line_range"@) == JsonView::List(
            seq![JsonView::Number(number::decimal(a as nat)), JsonView::Number(number::decimal(b as nat))],
        ),
        0 < a <= b <= (cache::fresh(c, key, mtime)->0).lines.len(),
    ensures
        ({
            let e = cache::fresh(c, key, mtime)->0;
            let kind = KindView::Read { path, has_range: true, is_symbols: false };
            cached(c, kind, args, key, mtime) == Some(
                (
                    cache::range_message(
                        cache::window_text(path, e.lines, a - 1, b as int),
                        cache::turns_between(c, e),
                    ),
                    (b - a + 1) as nat,
                ),
            )
        }),
        ({
            let e = cache::fresh(c, key, mtime)->0;
            let kind = KindView::Read { path, has_range: false, is_symbols: false };
            cached(c, kind, args, key, mtime) == Some(
                (cache::hit_message(e.full_output, cache::turns_between(c, e)), e.lines.len()),
            )
        }),
{
    number::decimal_reads_back(a as nat);
    number::decimal_reads_back(b as nat);
    let v = seq![
        JsonView::Number(number::decimal(a as nat)),
        JsonView::Number(number::decimal(b as nat)),
    ];
    assert(args.at("line_range"@).list() == Some(v));
    assert(asked_lines(v) == (a - 1, Some(b as int)));
}

/// What was read is kept and found again; what was written, and what a command
/// names, is no longer served; other calls change nothing.
pub proof fn calls_keep_the_cache_true(
    c: CacheView,
    path: Seq<char>,
    args: JsonView,
    key: Seq<char>,
    mtime: Option<i128>,
    content: Seq<char>,
    has_range: bool,
    command: Seq<char>,
)
    ensures
        ({
            let read = KindView::Read { path, has_range, is_symbols: false };
            let after = cache_after(c, read, args, key, mtime, Some(content));
            &&& cache::fresh(after, key, mtime) matches Some(e) && e.lines == pieces::lines(content)
            &&& cache_after(c, read, args, key, mtime, None) == c
        }),
        cache::fresh(
            cache_after(c, KindView::Mutate { path }, args, key, mtime, Some(content)),
            key,
            mtime,
        ) is None,
        args.at("command"@) == JsonView::Text(command) && text::contains(command, key)
            ==> cache::fresh(
            cache_after(c, KindView::Other { is_bash: true }, args, key, mtime, Some(content)),
            key,
            mtime,
        ) is None,
        cache_after(c, KindView::Other { is_bash: false }, args, key, mtime, Some(content)) == c,
        cache_after(
            c,
            KindView::Read { path, has_range, is_symbols: true },
            args,
            key,
            mtime,
            Some(content),
        ) == c,
{
}

/// Each call goes to what carries it out: those that the library answers by
/// name, edits, then the native tools, and all else to a server.
pub proof fn calls_go_where_they_belong(name: Seq<char>)
    ensures
        route_of("bash"@, true) == Route::Bash,
        route_of("find_symbol"@, true) == Route::FindSymbol,
        route_of("ask_user"@, true) == Route::AskUser,
        route_of("write_file"@, true) == Route::Edit,
        route_of("edit_file"@, true) == Route::Edit,
        route_of("patch_file"@, true) == Route::Edit,
        name != "bash"@ && name != "find_symbol"@ && name != "ask_user"@ && name != "write_file"@ && name
            != "edit_file"@ && name != "patch_file"@ ==> route_of(name, true) == Route::Native
            && route_of(name, false) == Route::Mcp,
{
    names_differ();
}

/// What a tool gave is given back as it is, and a failure is told as one: with
/// the file as it stands where an edit failed.
pub proof fn results_are_given_back(route: Route, s: Seq<char>, current: Seq<char>)
    ensures
        given_back(route, Ok(s), None) == s,
        given_back(route, Ok(s), Some(current)) == s,
        given_back(Route::Mcp, Err(s), None) == "[MCP tool error: "@ + s + "]"@,
        given_back(Route::AskUser, Err(s), None) == s,
        given_back(Route::Edit, Err(s), Some(current)) == "[Tool error: "@ + s
            + "]\n\nCurrent file content for reference:\n"@ + current,
        route != Route::Mcp && route != Route::AskUser ==> given_back(route, Err(s), None)
            == "[Tool error: "@ + s + "]"@,
{
    reveal_strlit("]");
    reveal_strlit("\n\nCurrent file content for reference:\n");
    reveal_strlit("]\n\nCurrent file content for reference:\n");
    assert("]"@ + "\n\nCurrent file content for reference:\n"@
        =~= "]\n\nCurrent file content for reference:\n"@);
    assert("[Tool error: "@ + s + "]"@ + ("\n\nCurrent file content for reference:\n"@ + current)
        =~= "[Tool error: "@ + s + ("]"@ + "\n\nCurrent file content for reference:\n"@)
        + current);
    assert("[Tool error: "@ + s + "]"@ + Seq::<char>::empty() =~= "[Tool error: "@ + s + "]"@);
}

/// Each hook is told of, one behind the other: in short where it passed and
/// printed nothing, else with its code and what it printed.
pub proof fn hooks_are_told_of(a: Seq<OutcomeView>, h: OutcomeView)
    ensures
        hook_notes(Seq::empty()) == Seq::<char>::empty(),
        h.exit_code == 0 && text::trim(h.output).len() == 0 ==> hook_notes(a.push(h)) == hook_notes(a)
            + "\n\n⚙ `"@ + h.cmd + "` ✓"@,
        h.exit_code != 0 || text::trim(h.output).len() > 0 ==> hook_notes(a.push(h)) == hook_notes(a)
            + "\n\n⚙ `"@ + h.cmd + "` (exit "@ + number::signed(h.exit_code) + "):\n"@ + h.output,
{
    assert(a.push(h).drop_last() =~= a);
    let n = hook_notes(a);
    assert(n + ("\n\n⚙ `"@ + h.cmd + "` ✓"@) =~= n + "\n\n⚙ `"@ + h.cmd + "` ✓"@);
    assert(n + ("\n\n⚙ `"@ + h.cmd + "` (exit "@ + number::signed(h.exit_code) + "):\n"@ + h.output)
        =~= n + "\n\n⚙ `"@ + h.cmd + "` (exit "@ + number::signed(h.exit_code) + "):\n"@
        + h.output);
}

proof fn code_reads_back(n: int, tail: Seq<char>)
    requires
        i32::MIN <= n <= i32::MAX,
        tail.len() == 0 || !text::ascii_digit(tail[0]),
    ensures
        leading_code(number::signed(n) + tail) == n,
{
    let m = if n < 0 {
        (-n) as nat
    } else {
        n as nat
    };
    let d = number::decimal(m);
    number::decimal_reads_back(m);
    let s = d + tail;
    text::lead_bound(s, CharSet::Digit, true);
    let k = text::lead(s, CharSet::Digit, true) as int;
    if k < d.len() {
        assert(s[k] == d[k]);
    } else if k > d.len() {
        assert(s[d.len() as int] == tail[0]);
    }
    assert(s.take(k) =~= d);
    if n < 0 {
        assert((number::signed(n) + tail).skip(1) =~= s);
    } else {
        assert(text::ascii_digit(d[0]));
        assert(s[0] == d[0]);
    }
}

/// The line that tells of a hook tells of a fault if and only if the hook's
/// code is not zero.
pub proof fn failed_hook_is_a_fault(cmd: Seq<char>, code: int)
    requires
        i32::MIN <= code <= i32::MAX,
        !cmd.contains('('),
    ensures
        tells_fault("⚙ `"@ + cmd + "` (exit "@ + number::signed(code) + "):"@) <==> code != 0,
        !tells_fault("⚙ `"@ + cmd + "` ✓"@),
{
    reveal_strlit("⚙ `");
    reveal_strlit("⚙ ");
    reveal_strlit("` (exit ");
    reveal_strlit("(exit ");
    reveal_strlit("):");
    reveal_strlit("` ✓");
    let line = "⚙ `"@ + cmd + "` (exit "@ + number::signed(code) + "):"@;
    let p = "(exit "@;
    let num = number::signed(code) + "):"@;
    let front = "`"@ + cmd + "` "@;
    reveal_strlit("`");
    reveal_strlit("` ");
    let rest = front + p + num;
    assert(line =~= "⚙ "@ + rest);
    assert(line.subrange(0, 2) =~= "⚙ "@);
    assert(line.skip(2) =~= rest);
    assert(!front.contains('(')) by {
        if front.contains('(') {
            let i = front.index_of('(');
            if 1 <= i < 1 + cmd.len() {
                assert(front[i] == cmd[i - 1]);
                assert(cmd.contains(cmd[i - 1]));
            }
        }
    }
    text::found_behind(front, p, num);
    code_reads_back(code, "):"@);
    let well = "⚙ `"@ + cmd + "` ✓"@;
    let more = "`"@ + cmd + "` ✓"@;
    assert(well =~= "⚙ "@ + more);
    assert(well.subrange(0, 2) =~= "⚙ "@);
    assert(well.skip(2) =~= more);
    assert(!more.contains('(')) by {
        if more.contains('(') {
            let i = more.index_of('(');
            if 1 <= i < 1 + cmd.len() {
                assert(more[i] == cmd[i - 1]);
                assert(cmd.contains(cmd[i - 1]));
            }
        }
    }
    text::found_nowhere(more, p);
}

proof fn held_within(a: Seq<char>, p: Seq<char>, b: Seq<char>)
    ensures
        text::contains(a + p + b, p),
        text::begins(p + b, p),
{
    let s = a + p + b;
    let n = a.len() as int;
    assert(s.subrange(n, n + p.len()) =~= p);
    assert(text::occurs_at(s, p, n));
    assert((p + b).subrange(0, p.len() as int) =~= p);
}

/// A result that holds one of the notes of failure is one of failure, wherever
/// the note stands; one that begins with the note that nothing was run did
/// nothing.
pub proof fn notes_of_failure_are_seen(a: Seq<char>, b: Seq<char>)
    ensures
        had_error(a + "[Tool error"@ + b),
        had_error(a + "[Not executed"@ + b),
        had_error(a + "✗ build check failed"@ + b),
        had_error(a + "⚠ FILE WRITTEN BUT BUILD BROKEN"@ + b),
        had_error(a + "⚠ skipped dependent edit"@ + b),
        had_error(a + "[Loop detected"@ + b),
        had_error(a + "[dry-run"@ + b),
        did_nothing("[Tool error"@ + b),
        did_nothing("[Not executed"@ + b),
        did_nothing("[Loop detected"@ + b),
        did_nothing("[dry-run"@ + b),
{
    held_within(a, "[Tool error"@, b);
    held_within(a, "[Not executed"@, b);
    held_within(a, "✗ build check failed"@, b);
    held_within(a, "⚠ FILE WRITTEN BUT BUILD BROKEN"@, b);
    held_within(a, "⚠ skipped dependent edit"@, b);
    held_within(a, "[Loop detected"@, b);
    held_within(a, "[dry-run"@, b);
}

/// A call that edits nothing leaves the messages and the written files alone,
/// and its record is put behind the others. An edit puts its path among the
/// written files, and takes what showed the file out of the messages unless a
/// tool error is told.
pub proof fn only_edits_reach_back(
    tc: ToolCallView,
    kind: KindView,
    raw: Seq<char>,
    verbose: bool,
    hooks: Seq<OutcomeView>,
    written: Seq<Seq<char>>,
    messages: Seq<MessageView>,
    records: Seq<RecordView>,
)
    ensures
        ({
            let r = completed(tc, kind, raw, verbose, hooks, written, messages, records);
            &&& !(kind is Mutate) ==> r.content == history::summary_of(tc.name, raw) && r.written
                == written && r.messages == messages && r.history == records.push(
                RecordView {
                    tool_name: tc.name,
                    full_output: raw,
                    summary: history::summary_of(tc.name, raw),
                },
            )
            &&& kind matches KindView::Mutate { path } ==> r.written.contains(path) && (forall|f: Seq<char>|
                written.contains(f) ==> #[trigger] r.written.contains(f)) && r.history.len()
                == records.len() + 1 && (if text::contains(r.content, "[Tool error"@) {
                r.messages == messages
            } else {
                r.messages == consumed::evicted(messages, path)
            }) && text::begins(r.content, history::summary_of(tc.name, raw))
        }),
{
    if let KindView::Mutate { path } = kind {
        let w = with_path(written, path);
        if !written.contains(path) {
            assert(w[written.len() as int] == path);
        }
        assert forall|f: Seq<char>| written.contains(f) implies #[trigger] w.contains(f) by {
            let i = written.index_of(f);
            assert(w[i] == f);
        }
        let s = history::summary_of(tc.name, raw);
        assert((s + hook_notes(hooks)).subrange(0, s.len() as int) =~= s);
    }
}

/// Long values are cut so that they fit on a line, and the cut shows; short
/// ones are shown whole.
pub proof fn values_are_shown_short(s: Seq<char>)
    ensures
        s.len() <= 60 ==> short_value(JsonView::Text(s)) == seq!['"'] + s + seq!['"'],
        s.len() > 60 ==> short_value(JsonView::Text(s)) == seq!['"'] + s.take(57) + seq!['…', '"'],
{
    reveal_strlit("\"");
    reveal_strlit("…\"");
    assert("\""@ =~= seq!['"']);
    assert("…\""@ =~= seq!['…', '"']);
}

/// Of a result that is shown at length, the second line to the fifth follow.
pub proof fn four_more_lines_are_shown(s: Seq<char>, i: int)
    ensures
        ({
            let ls = pieces::lines(s);
            let r = more_lines(s);
            &&& ls.len() == 0 ==> r.len() == 0
            &&& 1 <= ls.len() <= 5 ==> r.len() == ls.len() - 1
            &&& ls.len() > 5 ==> r.len() == 4
            &&& 0 <= i < r.len() ==> r[i] == (EventView::ToolResult { summary: "  "@ + ls[i + 1] })
        }),
{
}

} // verus!
