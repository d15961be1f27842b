//! What tools gave back, in short for the conversation and whole for recall.

use crate::budget;
use crate::budget::{count_lines_with, path_in_header};
use crate::number;
use crate::number::{byte_len, decimal_usize};
use crate::pie;
use crate::pieces;
use crate::pieces::{before_first, first_line_of, join_with, lines_of};
use crate::text;
use crate::text::{begins_with, count, find_str, finishes_with, holds, one_of, same, trim_front_by, trimmed, without_first, CharSet};
use vstd::prelude::*;

verus! {

broadcast use crate::text::views_push;

/// A tool call that is done.
#[derive(Debug)]
pub struct ToolRecord {
    pub tool_name: String,
    /// All that the tool gave back.
    pub full_output: String,
    /// What goes into the conversation.
    pub summary: String,
}

/// What a `ToolRecord` says.
#[verifier::ext_equal]
pub struct RecordView {
    pub tool_name: Seq<char>,
    pub full_output: Seq<char>,
    pub summary: Seq<char>,
}

impl View for ToolRecord {
    type V = RecordView;

    open spec fn view(&self) -> RecordView {
        RecordView {
            tool_name: self.tool_name@,
            full_output: self.full_output@,
            summary: self.summary@,
        }
    }
}

impl Clone for ToolRecord {
    fn clone(&self) -> (r: Self)
        ensures
            r@ == self@,
    {
        ToolRecord {
            tool_name: self.tool_name.clone(),
            full_output: self.full_output.clone(),
            summary: self.summary.clone(),
        }
    }
}

pub open spec fn record_views(v: Seq<ToolRecord>) -> Seq<RecordView> {
    Seq::new(v.len(), |i: int| v[i]@)
}

/// Lines of a read that stay in the conversation.
pub const READ_FILE_CONTEXT_LINES: usize = 50;

// ── Lines ────────────────────────────────────────────────────────────────────

/// The first line.
pub fn first_line(s: &str) -> (r: String)
    ensures
        r@ == pieces::first_line(s@),
{
    first_line_of(s)
}

/// The first `n` lines, and how many more there are.
pub open spec fn front_lines(s: Seq<char>, n: int, note: Seq<char>) -> Seq<char> {
    let ls = pieces::lines(s);
    pieces::join(ls.take(n), "\n"@) + "\n[+"@ + number::decimal((ls.len() - n) as nat) + note
}

/// The lines from `from` to `to` of a list.
fn lines_between(lines: &Vec<String>, from: usize, to: usize) -> (r: Vec<String>)
    requires
        from <= to <= lines.len(),
    ensures
        text::views(r@) == text::views(lines@).subrange(from as int, to as int),
{
    let ghost all = text::views(lines@);
    let mut out: Vec<String> = Vec::new();
    let mut i: usize = from;
    while i < to
        invariant
            from <= i <= to <= lines.len(),
            out.len() == i - from,
            all == text::views(lines@),
            forall|k: int| 0 <= k < out.len() ==> (#[trigger] out@[k])@ == all[from + k],
        decreases to - i,
    {
        out.push(lines[i].clone());
        i += 1;
    }
    assert(text::views(out@) =~= all.subrange(from as int, to as int));
    out
}

fn keep_front(s: &str, n: usize, note: &str) -> (r: String)
    requires
        n < pieces::lines(s@).len(),
    ensures
        r@ == front_lines(s@, n as int, note@),
{
    let ls = lines_of(s);
    let ghost lv = text::views(ls@);
    assert(lv.len() == ls@.len());
    let kept = lines_between(&ls, 0, n);
    assert(lv.subrange(0, n as int) =~= lv.take(n as int));
    let mut out = join_with(&kept, "\n");
    out.append("\n[+");
    out.append(decimal_usize(ls.len() - n).as_str());
    out.append(note);
    out
}

fn line_count(s: &str) -> (n: usize)
    ensures
        n == pieces::lines(s@).len(),
{
    let ls = lines_of(s);
    assert(text::views(ls@).len() == ls@.len());
    ls.len()
}

/// `s` in at most `n` lines.
pub open spec fn truncated(s: Seq<char>, n: int) -> Seq<char> {
    if pieces::lines(s).len() <= n {
        s
    } else {
        front_lines(s, n, " lines truncated]"@)
    }
}

/// `s` in at most `n` lines.
pub fn truncate_to_lines(s: &str, n: usize) -> (r: String)
    ensures
        r@ == truncated(s@, n as int),
{
    if line_count(s) <= n {
        s.to_owned()
    } else {
        keep_front(s, n, " lines truncated]")
    }
}

// ── Edits ────────────────────────────────────────────────────────────────────

/// Whether `s` begins with one of the words.
pub open spec fn begins_one(s: Seq<char>, a: Seq<char>, b: Seq<char>) -> bool {
    text::begins(s, a) || text::begins(s, b)
}

/// What a line of code declares.
pub open spec fn declared(code: Seq<char>) -> Option<Seq<char>> {
    if begins_one(code, "pub fn "@, "fn "@) {
        Some(pieces::before_text(code, "("@))
    } else if begins_one(code, "pub struct "@, "struct "@) || begins_one(
        code,
        "pub enum "@,
        "enum "@,
    ) || text::begins(code, "impl "@) {
        Some(text::trim(pieces::before_text(code, "{"@)))
    } else if text::begins(code, "#[cfg(test)]"@) {
        Some("#[cfg(test)] mod tests"@)
    } else if text::begins(code, "mod "@) {
        Some(text::trim(pieces::before_text(code, "{"@)))
    } else if text::begins(code, "async fn test_"@) || begins_one(
        code,
        "export function "@,
        "function "@,
    ) {
        Some(pieces::before_text(code, "("@))
    } else if text::begins(code, "class "@) {
        Some(text::trim(pieces::before_text(code, "{"@)))
    } else if text::begins(code, "def "@) {
        Some(pieces::before_text(code, "("@))
    } else {
        None
    }
}

fn declaration(code: &str) -> (r: Option<String>)
    ensures
        text::opt_text(r) == declared(code@),
{
    if begins_with(code, "pub fn ") || begins_with(code, "fn ") {
        Some(before_first(code, "("))
    } else if begins_with(code, "pub struct ") || begins_with(code, "struct ") || begins_with(
        code,
        "pub enum ",
    ) || begins_with(code, "enum ") || begins_with(code, "impl ") {
        Some(trimmed(before_first(code, "{").as_str()))
    } else if begins_with(code, "#[cfg(test)]") {
        Some("#[cfg(test)] mod tests".to_owned())
    } else if begins_with(code, "mod ") {
        Some(trimmed(before_first(code, "{").as_str()))
    } else if begins_with(code, "async fn test_") || begins_with(code, "export function ")
        || begins_with(code, "function ") {
        Some(before_first(code, "("))
    } else if begins_with(code, "class ") {
        Some(trimmed(before_first(code, "{").as_str()))
    } else if begins_with(code, "def ") {
        Some(before_first(code, "("))
    } else {
        None
    }
}

/// The code of a shown line like `  42 [a3f2] | code`.
pub open spec fn shown_code(line: Seq<char>) -> Option<Seq<char>> {
    match text::find(line, " | "@) {
        Some(i) => Some(text::trim(line.skip(i + 3))),
        None => None,
    }
}

pub open spec fn line_declares(line: Seq<char>) -> Option<Seq<char>> {
    match shown_code(line) {
        Some(code) => declared(code),
        None => None,
    }
}

/// What the lines declare, at most ten.
pub open spec fn declarations(ls: Seq<Seq<char>>) -> Seq<Seq<char>>
    decreases ls.len(),
{
    if ls.len() == 0 {
        Seq::empty()
    } else {
        let rest = declarations(ls.drop_last());
        match line_declares(ls.last()) {
            Some(d) => if d.len() > 0 && rest.len() < 10 {
                rest.push(d)
            } else {
                rest
            },
            None => rest,
        }
    }
}

/// An edit in short: its first line, and what its echo declares.
pub open spec fn edit_summary(output: Seq<char>) -> Seq<char> {
    let ls = pieces::lines(output);
    let ds = if ls.len() > 0 {
        declarations(ls.skip(1))
    } else {
        Seq::empty()
    };
    if ds.len() == 0 {
        pieces::first_line(output)
    } else {
        pieces::first_line(output) + "\n  added/modified: "@ + pieces::join(ds, ", "@)
    }
}

/// An edit in short.
pub fn summarise_edit(output: &str) -> (r: String)
    ensures
        r@ == edit_summary(output@),
{
    let first = first_line(output);
    let ls = lines_of(output);
    let ghost lv = text::views(ls@);
    assert(lv.len() == ls@.len());
    let mut found: Vec<String> = Vec::new();
    proof {
        text::views_empty();
    }
    if ls.len() > 0 {
        let ghost rest = lv.skip(1);
        let mut i: usize = 1;
        assert(rest.take(0) =~= Seq::<Seq<char>>::empty());
        while i < ls.len()
            invariant
                1 <= i <= ls.len(),
                lv == text::views(ls@),
                rest == lv.skip(1),
                text::views(found@) == declarations(rest.take(i - 1)),
            decreases ls.len() - i,
        {
            assert(rest.take(i as int).drop_last() =~= rest.take(i - 1));
            assert(rest.take(i as int).last() == ls@[i as int]@);
            assert(text::views(found@).len() == found@.len());
            proof {
                reveal_strlit(" | ");
                text::find_is_first(ls@[i as int]@, " | "@);
            }
            match find_str(ls[i].as_str(), " | ") {
                Some(at) => {
                    let code = trimmed(without_first(ls[i].as_str(), at + 3).as_str());
                    match declaration(code.as_str()) {
                        Some(d) => {
                            if count(d.as_str()) > 0 && found.len() < 10 {
                                found.push(d);
                            }
                        },
                        None => {},
                    }
                },
                None => {},
            }
            i += 1;
        }
        assert(rest.take(i - 1) =~= rest);
    }
    assert(text::views(found@).len() == found@.len());
    if found.len() == 0 {
        first
    } else {
        let mut out = first;
        out.append("\n  added/modified: ");
        out.append(join_with(&found, ", ").as_str());
        out
    }
}

// ── Listings ─────────────────────────────────────────────────────────────────

/// Whether a line of a long listing stays: directories, notes, empty lines.
pub open spec fn listing_stays(line: Seq<char>) -> bool {
    let t = text::trim(line);
    text::ends(t, "/"@) || text::begins(t, "["@) || t.len() == 0
}

pub open spec fn staying(ls: Seq<Seq<char>>) -> Seq<Seq<char>>
    decreases ls.len(),
{
    if ls.len() == 0 {
        Seq::empty()
    } else if listing_stays(ls.last()) {
        staying(ls.drop_last()).push(ls.last())
    } else {
        staying(ls.drop_last())
    }
}

/// The lines, each with its end.
pub open spec fn ended(ls: Seq<Seq<char>>) -> Seq<char>
    decreases ls.len(),
{
    if ls.len() == 0 {
        Seq::empty()
    } else {
        ended(ls.drop_last()) + ls.last() + "\n"@
    }
}

/// A listing in short: whole up to eighty lines, else its directories.
pub open spec fn list_summary(output: Seq<char>) -> Seq<char> {
    let ls = pieces::lines(output);
    let kept = staying(ls);
    if ls.len() <= 80 {
        output
    } else if ls.len() > kept.len() {
        ended(kept) + "["@ + number::decimal((ls.len() - kept.len()) as nat)
            + " files omitted — directories shown above. Ask to recall for full listing.]"@
    } else {
        ended(kept)
    }
}

/// A listing in short.
pub fn summarise_list(output: &str) -> (r: String)
    ensures
        r@ == list_summary(output@),
{
    let ls = lines_of(output);
    let ghost lv = text::views(ls@);
    assert(lv.len() == ls@.len());
    if ls.len() <= 80 {
        return output.to_owned();
    }
    let mut out = String::new();
    let mut kept: usize = 0;
    let mut i: usize = 0;
    assert(lv.take(0) =~= Seq::<Seq<char>>::empty());
    while i < ls.len()
        invariant
            i <= ls.len(),
            kept <= i,
            lv == text::views(ls@),
            kept == staying(lv.take(i as int)).len(),
            out@ == ended(staying(lv.take(i as int))),
        decreases ls.len() - i,
    {
        assert(lv.take(i + 1).drop_last() =~= lv.take(i as int));
        assert(lv.take(i + 1).last() == ls@[i as int]@);
        let t = trimmed(ls[i].as_str());
        if finishes_with(t.as_str(), "/") || begins_with(t.as_str(), "[") || count(t.as_str()) == 0 {
            out.append(ls[i].as_str());
            out.append("\n");
            kept += 1;
            proof {
                let now = staying(lv.take(i + 1));
                assert(now.drop_last() =~= staying(lv.take(i as int)));
                assert(now.last() == ls@[i as int]@);
            }
        }
        i += 1;
    }
    assert(lv.take(i as int) =~= lv);
    if ls.len() > kept {
        out.append("[");
        out.append(decimal_usize(ls.len() - kept).as_str());
        out.append(" files omitted — directories shown above. Ask to recall for full listing.]");
    }
    out
}

// ── Commands ─────────────────────────────────────────────────────────────────

/// Whether a line is a message of a compiler or of a test run.
pub open spec fn diagnostic(line: Seq<char>) -> bool {
    let t = text::trim_start_set(line, CharSet::White);
    ||| text::begins(t, "error["@)
    ||| text::begins(t, "error: "@)
    ||| text::begins(t, "warning["@)
    ||| text::begins(t, "--> "@)
    ||| text::begins(t, "thread '"@) && text::contains(t, "panicked"@)
    ||| t == "FAILED"@
    ||| text::begins(t, "test "@) && text::ends(t, "FAILED"@)
    ||| text::begins(t, "failures:"@)
}

fn is_diagnostic(line: &str) -> (r: bool)
    ensures
        r == diagnostic(line@),
{
    let t = trim_front_by(line, CharSet::White);
    let t = t.as_str();
    begins_with(t, "error[") || begins_with(t, "error: ") || begins_with(t, "warning[")
        || begins_with(t, "--> ") || (begins_with(t, "thread '") && holds(t, "panicked"))
        || same(t, "FAILED") || (begins_with(t, "test ") && finishes_with(t, "FAILED"))
        || begins_with(t, "failures:")
}

/// The first `max` diagnostics among the lines.
pub open spec fn diagnostics(ls: Seq<Seq<char>>, max: int) -> Seq<Seq<char>>
    decreases ls.len(),
{
    if ls.len() == 0 {
        Seq::empty()
    } else {
        let rest = diagnostics(ls.drop_last(), max);
        if diagnostic(ls.last()) && rest.len() < max {
            rest.push(ls.last())
        } else {
            rest
        }
    }
}

/// The output of a command in short: whole up to eight lines, else its
/// diagnostics, else its head and its tail.
pub open spec fn bash_summary(output: Seq<char>) -> Seq<char> {
    let ls = pieces::lines(output);
    let ds = diagnostics(ls, 30);
    let n = ls.len() as int;
    if n <= 8 {
        output
    } else if ds.len() > 0 {
        pieces::join(ds, "\n"@) + if n > ds.len() {
            "\n[+"@ + number::decimal((n - ds.len()) as nat) + " lines omitted]"@
        } else {
            Seq::empty()
        }
    } else {
        pieces::join(ls.take(5), "\n"@) + "\n[... "@ + number::decimal((n - 8) as nat)
            + " lines omitted ...]"@ + "\n"@ + pieces::join(ls.skip(n - 3), "\n"@)
    }
}

/// The output of a command in short.
pub fn summarise_bash(output: &str) -> (r: String)
    ensures
        r@ == bash_summary(output@),
{
    let ls = lines_of(output);
    let ghost lv = text::views(ls@);
    assert(lv.len() == ls@.len());
    if ls.len() <= 8 {
        return output.to_owned();
    }
    let mut found: Vec<String> = Vec::new();
    let mut i: usize = 0;
    proof {
        text::views_empty();
        assert(lv.take(0) =~= Seq::<Seq<char>>::empty());
    }
    while i < ls.len()
        invariant
            i <= ls.len(),
            lv == text::views(ls@),
            found.len() <= i,
            text::views(found@) == diagnostics(lv.take(i as int), 30),
        decreases ls.len() - i,
    {
        assert(lv.take(i + 1).drop_last() =~= lv.take(i as int));
        assert(lv.take(i + 1).last() == ls@[i as int]@);
        assert(text::views(found@).len() == found@.len());
        if is_diagnostic(ls[i].as_str()) && found.len() < 30 {
            found.push(ls[i].clone());
        }
        i += 1;
    }
    assert(lv.take(i as int) =~= lv);
    assert(text::views(found@).len() == found@.len());
    if found.len() > 0 {
        let mut out = join_with(&found, "\n");
        if ls.len() > found.len() {
            out.append("\n[+");
            out.append(decimal_usize(ls.len() - found.len()).as_str());
            out.append(" lines omitted]");
        }
        assert(out@ =~= bash_summary(output@));
        return out;
    }
    let head = lines_between(&ls, 0, 5);
    let tail = lines_between(&ls, ls.len() - 3, ls.len());
    assert(lv.subrange(0, 5) =~= lv.take(5));
    assert(lv.subrange(lv.len() - 3, lv.len() as int) =~= lv.skip(lv.len() - 3));
    let mut out = join_with(&head, "\n");
    out.append("\n[... ");
    out.append(decimal_usize(ls.len() - 8).as_str());
    out.append(" lines omitted ...]");
    out.append("\n");
    out.append(join_with(&tail, "\n").as_str());
    out
}

// ── Every tool ───────────────────────────────────────────────────────────────

/// Whether a header shows a window of a file, like `[path — lines 1-9 of 20]`.
pub open spec fn ranged(header: Seq<char>) -> bool {
    text::contains(header, "— lines "@) && text::contains(header, " of "@)
}

pub fn is_ranged(header: &str) -> (r: bool)
    ensures
        r == ranged(header@),
{
    holds(header, "— lines ") && holds(header, " of ")
}

pub open spec fn edits() -> Seq<Seq<char>> {
    seq!["write_file"@, "edit_file"@, "patch_file"@]
}

pub open spec fn build_broke(output: Seq<char>) -> bool {
    text::contains(output, "⚠ FILE WRITTEN BUT BUILD BROKEN"@) || text::contains(
        output,
        "✗ build check failed"@,
    )
}

/// What the conversation keeps of a tool's output.
pub open spec fn summary_of(tool: Seq<char>, output: Seq<char>) -> Seq<char> {
    let long = pieces::lines(output).len() > READ_FILE_CONTEXT_LINES + 1;
    if tool == "read_file"@ {
        if long && !ranged(pieces::first_line(output)) {
            front_lines(
                output,
                READ_FILE_CONTEXT_LINES as int,
                " lines omitted — re-read with line_range if needed]"@,
            )
        } else {
            output
        }
    } else if edits().contains(tool) {
        if build_broke(output) {
            output
        } else {
            edit_summary(output)
        }
    } else if tool == "list_files"@ {
        list_summary(output)
    } else if tool == "bash"@ {
        bash_summary(output)
    } else if tool == "project_index"@ {
        if long {
            front_lines(
                output,
                READ_FILE_CONTEXT_LINES as int,
                " lines omitted — use project_index again or recall]"@,
            )
        } else {
            output
        }
    } else {
        truncated(output, 3)
    }
}

/// What the conversation keeps of a tool's output.
pub fn summarise(tool_name: &str, output: &str) -> (r: String)
    ensures
        r@ == summary_of(tool_name@, output@),
{
    let edit_tools = ["write_file", "edit_file", "patch_file"];
    assert(text::texts(edit_tools@) =~= edits());
    if same(tool_name, "read_file") {
        if line_count(output) <= READ_FILE_CONTEXT_LINES + 1 {
            return output.to_owned();
        }
        if is_ranged(first_line(output).as_str()) {
            return output.to_owned();
        }
        keep_front(
            output,
            READ_FILE_CONTEXT_LINES,
            " lines omitted — re-read with line_range if needed]",
        )
    } else if one_of(tool_name, &edit_tools) {
        if holds(output, "⚠ FILE WRITTEN BUT BUILD BROKEN") || holds(
            output,
            "✗ build check failed",
        ) {
            output.to_owned()
        } else {
            summarise_edit(output)
        }
    } else if same(tool_name, "list_files") {
        summarise_list(output)
    } else if same(tool_name, "bash") {
        summarise_bash(output)
    } else if same(tool_name, "project_index") {
        if line_count(output) <= READ_FILE_CONTEXT_LINES + 1 {
            return output.to_owned();
        }
        keep_front(
            output,
            READ_FILE_CONTEXT_LINES,
            " lines omitted — use project_index again or recall]",
        )
    } else {
        truncate_to_lines(output, 3)
    }
}

/// What the screen shows of a tool's output.
pub open spec fn display_of(tool: Seq<char>, output: Seq<char>) -> Seq<char> {
    let first = pieces::first_line(output);
    let n = budget::lines_with(pieces::lines(output), " | "@);
    if tool != "read_file"@ {
        summary_of(tool, output)
    } else if !text::begins(first, "["@) {
        "✓ Read file ("@ + number::decimal(pieces::lines(output).len()) + " lines)"@
    } else if n > 0 {
        "✓ Read "@ + budget::header_path(first) + " ("@ + number::decimal(n) + " lines shown)"@
    } else {
        "✓ Read "@ + budget::header_path(first)
    }
}

/// What the screen shows of a tool's output.
pub fn display_summarise(tool_name: &str, output: &str) -> (r: String)
    ensures
        r@ == display_of(tool_name@, output@),
{
    if !same(tool_name, "read_file") {
        return summarise(tool_name, output);
    }
    let first = first_line(output);
    if begins_with(first.as_str(), "[") {
        let n: usize = count_lines_with(output, " | ");
        let mut out = "✓ Read ".to_owned();
        out.append(path_in_header(first.as_str()).as_str());
        if n > 0 {
            out.append(" (");
            out.append(decimal_usize(n).as_str());
            out.append(" lines shown)");
        }
        return out;
    }
    let mut out = "✓ Read file (".to_owned();
    out.append(decimal_usize(line_count(output)).as_str());
    out.append(" lines)");
    out
}

// ── The store ────────────────────────────────────────────────────────────────

/// All tool calls that are done.
#[derive(Debug)]
pub struct History {
    pub records: Vec<ToolRecord>,
}

impl View for History {
    type V = Seq<RecordView>;

    open spec fn view(&self) -> Seq<RecordView> {
        record_views(self.records@)
    }
}

impl Default for History {
    fn default() -> (r: Self)
        ensures
            r@ == Seq::<RecordView>::empty(),
    {
        let r = History { records: Vec::new() };
        assert(r@ =~= Seq::<RecordView>::empty());
        r
    }
}

/// What stands in place of content that an edit made wrong.
pub open spec fn stale_note(path: Seq<char>) -> Seq<char> {
    "[Stale — "@ + path + " was edited. Re-read for current content.]"@
}

pub fn stale_stub(path: &str) -> (r: String)
    ensures
        r@ == stale_note(path@),
{
    let mut s = "[Stale — ".to_owned();
    s.append(path);
    s.append(" was edited. Re-read for current content.]");
    s
}

/// Whether a record is a long read that names the path.
pub open spec fn stale(r: RecordView, path: Seq<char>) -> bool {
    r.tool_name == "read_file"@ && text::contains(r.summary, path) && number::width(r.summary) > 200
}

/// A record after an edit of the path.
pub open spec fn after_edit(r: RecordView, path: Seq<char>) -> RecordView {
    if stale(r, path) {
        RecordView { summary: stale_note(path), full_output: stale_note(path), ..r }
    } else {
        r
    }
}

pub open spec fn shortened(rs: Seq<RecordView>) -> nat
    decreases rs.len(),
{
    if rs.len() == 0 {
        0
    } else {
        shortened(rs.drop_last()) + if number::width(rs.last().summary) < number::width(
            rs.last().full_output,
        ) {
            1nat
        } else {
            0
        }
    }
}

impl History {
    /// Keeps a call that is done. Gives what goes into the conversation, and
    /// what the screen shows.
    pub fn record(&mut self, tool_name: &str, full_output: &str) -> (r: (String, String))
        ensures
            r.0@ == summary_of(tool_name@, full_output@),
            r.1@ == display_of(tool_name@, full_output@),
            final(self)@ == old(self)@.push(
                RecordView {
                    tool_name: tool_name@,
                    full_output: full_output@,
                    summary: summary_of(tool_name@, full_output@),
                },
            ),
    {
        let model_output = summarise(tool_name, full_output);
        let shown = display_summarise(tool_name, full_output);
        self.records.push(
            ToolRecord {
                tool_name: tool_name.to_owned(),
                full_output: full_output.to_owned(),
                summary: model_output.clone(),
            },
        );
        assert(self@ =~= old(self)@.push(
            RecordView {
                tool_name: tool_name@,
                full_output: full_output@,
                summary: model_output@,
            },
        ));
        (model_output, shown)
    }

    /// How many records are shorter than what the tool gave back.
    pub fn compressed_count(&self) -> (n: usize)
        ensures
            n == shortened(self@),
    {
        let ghost rs = self@;
        let mut n: usize = 0;
        let mut i: usize = 0;
        assert(rs.take(0) =~= Seq::<RecordView>::empty());
        while i < self.records.len()
            invariant
                i <= self.records.len(),
                n <= i,
                rs == self@,
                n == shortened(rs.take(i as int)),
            decreases self.records.len() - i,
        {
            assert(rs.take(i + 1).drop_last() =~= rs.take(i as int));
            assert(rs.take(i + 1).last() == self.records@[i as int]@);
            if byte_len(self.records[i].summary.as_str()) < byte_len(
                self.records[i].full_output.as_str(),
            ) {
                n += 1;
            }
            i += 1;
        }
        assert(rs.take(i as int) =~= rs);
        n
    }

    /// Forgets long reads of a path that was edited.
    pub fn compress_reads_for(&mut self, path: &str)
        ensures
            final(self)@ == Seq::new(
                old(self)@.len(),
                |i: int| after_edit(old(self)@[i], path@),
            ),
    {
        let ghost before = self@;
        let stub = stale_stub(path);
        let mut i: usize = 0;
        while i < self.records.len()
            invariant
                i <= self.records.len(),
                self.records.len() == before.len(),
                stub@ == stale_note(path@),
                forall|k: int|
                    0 <= k < i ==> (#[trigger] self.records@[k])@ == after_edit(before[k], path@),
                forall|k: int|
                    i <= k < before.len() ==> (#[trigger] self.records@[k])@ == before[k],
            decreases self.records.len() - i,
        {
            assert(self.records@[i as int]@ == before[i as int]);
            if same(self.records[i].tool_name.as_str(), "read_file") && holds(
                self.records[i].summary.as_str(),
                path,
            ) && byte_len(self.records[i].summary.as_str()) > 200 {
                let r = ToolRecord {
                    tool_name: self.records[i].tool_name.clone(),
                    full_output: stub.clone(),
                    summary: stub.clone(),
                };
                self.records.set(i, r);
            }
            i += 1;
        }
        assert(self@ =~= Seq::new(before.len(), |k: int| after_edit(before[k], path@)));
    }
}

/// A read of a window stays whole.
pub proof fn ranged_read_is_whole(output: Seq<char>)
    requires
        ranged(pieces::first_line(output)),
    ensures
        summary_of("read_file"@, output) == output,
{
}

/// An edit that broke the build is shown whole.
pub proof fn broken_build_is_whole(tool: Seq<char>, output: Seq<char>)
    requires
        edits().contains(tool),
        build_broke(output),
    ensures
        summary_of(tool, output) == output,
{
    reveal_strlit("read_file");
    reveal_strlit("write_file");
    reveal_strlit("edit_file");
    reveal_strlit("patch_file");
    assert("read_file"@[0] == 'r');
    assert("write_file"@[0] == 'w');
    assert("edit_file"@[0] == 'e');
    assert("patch_file"@[0] == 'p');
}

/// What is not a long read that names the path stays; in place of one that
/// is stands a note.
pub proof fn only_stale_reads_go(r: RecordView, path: Seq<char>)
    ensures
        !stale(r, path) ==> after_edit(r, path) == r,
        stale(r, path) ==> after_edit(r, path) == (RecordView {
            tool_name: r.tool_name,
            summary: stale_note(path),
            full_output: stale_note(path),
        }),
{
}

// ── What summaries keep ──────────────────────────────────────────────────────

proof fn first_few<T>(s: Seq<T>, x: T, max: int)
    requires
        0 <= max,
    ensures
        pie::first_n(s.push(x), max) == if s.len() < max {
            pie::first_n(s, max).push(x)
        } else {
            pie::first_n(s, max)
        },
{
    if s.len() >= max {
        assert(s.push(x).take(max) =~= s.take(max));
        if s.len() == max {
            assert(s.take(max) =~= s);
        }
    }
}

/// The diagnostics of an output are its first diagnostic lines, as many as
/// are asked for.
pub proof fn first_diagnostics_are_kept(ls: Seq<Seq<char>>, max: int)
    requires
        0 <= max,
    ensures
        diagnostics(ls, max) == pie::first_n(ls.filter(|l: Seq<char>| diagnostic(l)), max),
    decreases ls.len(),
{
    reveal(Seq::filter);
    let p = |l: Seq<char>| diagnostic(l);
    if ls.len() > 0 {
        first_diagnostics_are_kept(ls.drop_last(), max);
        first_few(ls.drop_last().filter(p), ls.last(), max);
    }
}

/// A line tells of an error, a warning with a code or its place, a panic or a
/// failed test; white space in front of it does not matter.
pub proof fn diagnostics_are_told(space: Seq<char>, rest: Seq<char>)
    requires
        forall|i: int| 0 <= i < space.len() ==> text::is_white(#[trigger] space[i]),
    ensures
        diagnostic(space + "error["@ + rest),
        diagnostic(space + "error: "@ + rest),
        diagnostic(space + "warning["@ + rest),
        diagnostic(space + "--> "@ + rest),
        diagnostic(space + "failures:"@ + rest),
        diagnostic(space + "test "@ + rest + "FAILED"@),
        diagnostic(space + "thread '"@ + rest) <==> text::contains("thread '"@ + rest, "panicked"@),
{
    reveal_strlit("error[");
    reveal_strlit("error: ");
    reveal_strlit("warning[");
    reveal_strlit("--> ");
    reveal_strlit("failures:");
    reveal_strlit("test ");
    reveal_strlit("FAILED");
    reveal_strlit("thread '");
    behind_space(space, "error["@, rest);
    behind_space(space, "error: "@, rest);
    behind_space(space, "warning["@, rest);
    behind_space(space, "--> "@, rest);
    behind_space(space, "failures:"@, rest);
    behind_space(space, "thread '"@, rest);
    let t = "test "@ + (rest + "FAILED"@);
    behind_space(space, "test "@, rest + "FAILED"@);
    assert(space + "test "@ + rest + "FAILED"@ =~= space + "test "@ + (rest + "FAILED"@));
    let n = t.len() as int;
    assert(t.subrange(n - 6, n) =~= "FAILED"@);
    let u = "thread '"@ + rest;
    assert(u[0] == 't' && u[1] == 'h');
    if text::begins(u, "error["@) {
        assert(u.subrange(0, 6)[0] == u[0]);
    }
    if text::begins(u, "error: "@) {
        assert(u.subrange(0, 7)[0] == u[0]);
    }
    if text::begins(u, "warning["@) {
        assert(u.subrange(0, 8)[0] == u[0]);
    }
    if text::begins(u, "--> "@) {
        assert(u.subrange(0, 4)[0] == u[0]);
    }
    if text::begins(u, "failures:"@) {
        assert(u.subrange(0, 9)[0] == u[0]);
    }
    if text::begins(u, "test "@) {
        assert(u.subrange(0, 5)[1] == u[1]);
    }
    assert("FAILED"@[0] == 'F');
}

proof fn behind_space(space: Seq<char>, p: Seq<char>, rest: Seq<char>)
    requires
        forall|i: int| 0 <= i < space.len() ==> text::is_white(#[trigger] space[i]),
        p.len() > 0,
        !text::is_white(p[0]),
    ensures
        text::trim_start_set(space + p + rest, CharSet::White) == p + rest,
        text::begins(p + rest, p),
{
    let s = space + p + rest;
    let n = text::lead(s, CharSet::White, true);
    text::lead_bound(s, CharSet::White, true);
    if n < space.len() {
        assert(s[n as int] == space[n as int]);
    } else if n > space.len() {
        assert(s[space.len() as int] == p[0]);
    }
    assert(s.skip(space.len() as int) =~= p + rest);
    assert((p + rest).subrange(0, p.len() as int) =~= p);
}

/// Of a long listing the directories, the notes and the blank lines stay.
pub proof fn directories_stay(ls: Seq<Seq<char>>)
    ensures
        staying(ls) == ls.filter(
            |l: Seq<char>|
                {
                    let t = text::trim(l);
                    t.len() == 0 || t.last() == '/' || t[0] == '['
                },
        ),
    decreases ls.len(),
{
    reveal(Seq::filter);
    reveal_strlit("/");
    reveal_strlit("[");
    if ls.len() > 0 {
        directories_stay(ls.drop_last());
        let t = text::trim(ls.last());
        let n = t.len() as int;
        if n > 0 {
            assert(t.subrange(n - 1, n)[0] == t.last());
            assert(t.subrange(0, 1)[0] == t[0]);
            if t.last() == '/' {
                assert(t.subrange(n - 1, n) =~= "/"@);
            }
            if t[0] == '[' {
                assert(t.subrange(0, 1) =~= "["@);
            }
        }
    }
}

/// The declarations of an edit are the first ten of those that its lines
/// show.
pub proof fn first_declarations_are_kept(ls: Seq<Seq<char>>)
    ensures
        declarations(ls) == pie::first_n(
            ls.map_values(|l: Seq<char>| line_declares(l)).filter(
                |d: Option<Seq<char>>| d is Some && d->0.len() > 0,
            ).map_values(|d: Option<Seq<char>>| d->0),
            10,
        ),
    decreases ls.len(),
{
    reveal(Seq::filter);
    let f = |l: Seq<char>| line_declares(l);
    let some = |d: Option<Seq<char>>| d is Some && d->0.len() > 0;
    let got = |d: Option<Seq<char>>| d->0;
    if ls.len() > 0 {
        let t = ls.drop_last();
        first_declarations_are_kept(t);
        assert(ls.map_values(f).drop_last() =~= t.map_values(f));
        let a = t.map_values(f).filter(some);
        let x = f(ls.last());
        assert(a.push(x).map_values(got) =~= a.map_values(got).push(got(x)));
        first_few(a.map_values(got), got(x), 10);
    } else {
        assert(ls.map_values(f) =~= Seq::empty());
        assert(ls.map_values(f).filter(some).map_values(got) =~= Seq::empty());
    }
}

/// A line shows the code behind its number.
pub proof fn numbered_code_is_shown(n: Seq<char>, code: Seq<char>)
    requires
        !n.contains('|'),
    ensures
        shown_code(n + " | "@ + code) == Some(text::trim(code)),
{
    reveal_strlit(" | ");
    let s = n + " | "@ + code;
    let k = n.len() as int;
    assert(s.subrange(k, k + 3) =~= " | "@);
    assert(text::occurs_at(s, " | "@, k));
    text::find_is_first(s, " | "@);
    let i = text::find(s, " | "@)->0;
    if i < k {
        assert(s.subrange(i, i + 3)[1] == s[i + 1]);
        if i + 1 < k {
            assert(s[i + 1] == n[i + 1]);
        } else {
            assert(s[i + 1] == ' ');
        }
    }
    assert(s.skip(k + 3) =~= code);
}

/// Short results are kept whole, whatever the tool; how long they may be goes
/// by the tool.
pub proof fn short_results_are_whole(output: Seq<char>)
    ensures
        ({
            let n = pieces::lines(output).len();
            &&& n <= 51 ==> summary_of("read_file"@, output) == output
            &&& n <= 51 ==> summary_of("project_index"@, output) == output
            &&& n <= 80 ==> summary_of("list_files"@, output) == output
            &&& n <= 8 ==> summary_of("bash"@, output) == output
            &&& n <= 3 ==> summary_of("search"@, output) == output
        }),
{
    tools_differ();
}

proof fn tools_differ()
    ensures
        "read_file"@[0] == 'r',
        "project_index"@[0] == 'p',
        "list_files"@[0] == 'l',
        "bash"@[0] == 'b',
        "search"@[0] == 's',
        "project_index"@ != "patch_file"@,
        forall|t: Seq<char>| #[trigger] edits().contains(t) ==> t == "write_file"@ || t == "edit_file"@ || t
            == "patch_file"@,
        "write_file"@[0] == 'w',
        "edit_file"@[0] == 'e',
        "patch_file"@[0] == 'p',
        edits().contains("write_file"@),
        edits().contains("edit_file"@),
        edits().contains("patch_file"@),
{
    reveal_strlit("read_file");
    reveal_strlit("project_index");
    reveal_strlit("list_files");
    reveal_strlit("bash");
    reveal_strlit("search");
    reveal_strlit("write_file");
    reveal_strlit("edit_file");
    reveal_strlit("patch_file");
    assert("project_index"@.len() != "patch_file"@.len());
    let e = edits();
    assert(e.len() == 3);
    assert(e[0] == "write_file"@ && e[1] == "edit_file"@ && e[2] == "patch_file"@);
}

/// A long read of a whole file keeps the first lines and tells how many are
/// left out; a long output of a command keeps its diagnostics, and where it
/// has none its first five lines and its last three.
pub proof fn long_results_keep_their_front(output: Seq<char>)
    ensures
        ({
            let ls = pieces::lines(output);
            let n = ls.len();
            let kept = 50int;
            let told = pie::first_n(ls.filter(|l: Seq<char>| diagnostic(l)), 30);
            &&& n > kept + 1 && !(text::contains(ls[0], "— lines "@) && text::contains(ls[0], " of "@))
                ==> summary_of("read_file"@, output) == pieces::join(ls.take(kept), "\n"@) + "\n[+"@
                + number::decimal((n - kept) as nat)
                + " lines omitted — re-read with line_range if needed]"@
            &&& n > 8 && told.len() == 0 ==> summary_of("bash"@, output) == pieces::join(
                ls.take(5),
                "\n"@,
            ) + "\n[... "@ + number::decimal((n - 8) as nat) + " lines omitted ...]"@ + "\n"@
                + pieces::join(ls.skip(n - 3), "\n"@)
            &&& n > 8 && 0 < told.len() < n ==> summary_of("bash"@, output) == pieces::join(
                told,
                "\n"@,
            ) + "\n[+"@ + number::decimal((n - told.len()) as nat) + " lines omitted]"@
            &&& n > 3 ==> summary_of("search"@, output) == pieces::join(ls.take(3), "\n"@) + "\n[+"@
                + number::decimal((n - 3) as nat) + " lines truncated]"@
        }),
{
    tools_differ();
    let ls = pieces::lines(output);
    first_diagnostics_are_kept(ls, 30);
    let n = ls.len();
    let told = diagnostics(ls, 30);
    assert(pieces::join(told, "\n"@) + ("\n[+"@ + number::decimal((n - told.len()) as nat)
        + " lines omitted]"@) =~= pieces::join(told, "\n"@) + "\n[+"@ + number::decimal(
        (n - told.len()) as nat,
    ) + " lines omitted]"@);
}

/// An edit keeps its first line, and names what it declares.
pub proof fn edits_keep_their_first_line(output: Seq<char>)
    requires
        pieces::lines(output).len() > 0,
        !text::contains(output, "⚠ FILE WRITTEN BUT BUILD BROKEN"@),
        !text::contains(output, "✗ build check failed"@),
    ensures
        ({
            let ls = pieces::lines(output);
            let ds = declarations(ls.skip(1));
            let r = if ds.len() == 0 {
                ls[0]
            } else {
                ls[0] + "\n  added/modified: "@ + pieces::join(ds, ", "@)
            };
            &&& summary_of("write_file"@, output) == r
            &&& summary_of("edit_file"@, output) == r
            &&& summary_of("patch_file"@, output) == r
        }),
{
    tools_differ();
}

/// A record counts as shortened where its summary is shorter than what it
/// sums up.
pub proof fn shortened_are_counted(rs: Seq<RecordView>)
    ensures
        shortened(rs) == rs.filter(
            |r: RecordView| number::width(r.summary) < number::width(r.full_output),
        ).len(),
    decreases rs.len(),
{
    reveal(Seq::filter);
    if rs.len() > 0 {
        shortened_are_counted(rs.drop_last());
    }
}

/// An edit of a file makes long reads of it stale, and nothing else.
pub proof fn edits_make_long_reads_stale(r: RecordView, path: Seq<char>)
    ensures
        r.tool_name == "read_file"@ && text::contains(r.summary, path) && number::width(r.summary) > 200
            ==> after_edit(r, path).summary == "[Stale — "@ + path
            + " was edited. Re-read for current content.]"@ && after_edit(r, path).full_output
            == after_edit(r, path).summary,
        r.tool_name != "read_file"@ || !text::contains(r.summary, path) || number::width(r.summary)
            <= 200 ==> after_edit(r, path) == r,
        after_edit(r, path).tool_name == r.tool_name,
{
}

proof fn opens_so(p: Seq<char>, rest: Seq<char>, q: Seq<char>, k: int)
    requires
        0 <= k < p.len(),
        k < q.len(),
        p[k] != q[k],
    ensures
        !text::begins(p + rest, q),
        text::begins(p + rest, p),
{
    let s = p + rest;
    if text::begins(s, q) {
        assert(s.subrange(0, q.len() as int)[k] == s[k]);
    }
    assert(s.subrange(0, p.len() as int) =~= p);
}

/// The head of a function is shown up to its parameters, and the head of a
/// type up to its body.
pub proof fn heads_are_declared(name: Seq<char>, rest: Seq<char>)
    requires
        name.len() > 0,
        !text::is_white(name.last()),
        !name.contains('('),
        !name.contains('{'),
    ensures
        declared("fn "@ + name + "("@ + rest) == Some("fn "@ + name),
        declared("pub fn "@ + name + "("@ + rest) == Some("pub fn "@ + name),
        declared("struct "@ + name + "{"@ + rest) == Some("struct "@ + name),
        declared("enum "@ + name + "{"@ + rest) == Some("enum "@ + name),
        declared("impl "@ + name + "{"@ + rest) == Some("impl "@ + name),
{
    reveal_strlit("fn ");
    reveal_strlit("pub fn ");
    reveal_strlit("struct ");
    reveal_strlit("pub struct ");
    reveal_strlit("enum ");
    reveal_strlit("pub enum ");
    reveal_strlit("impl ");
    reveal_strlit("(");
    reveal_strlit("{");
    let p = name + "("@ + rest;
    let b = name + "{"@ + rest;
    head_up_to("fn "@, name, "("@, rest);
    head_up_to("pub fn "@, name, "("@, rest);
    head_up_to("struct "@, name, "{"@, rest);
    head_up_to("enum "@, name, "{"@, rest);
    head_up_to("impl "@, name, "{"@, rest);
    assert("fn "@ + name + "("@ + rest =~= "fn "@ + p);
    opens_so("fn "@, p, "pub fn "@, 0);
    assert("pub fn "@ + name + "("@ + rest =~= "pub fn "@ + p);
    opens_so("pub fn "@, p, "fn "@, 0);
    assert("struct "@ + name + "{"@ + rest =~= "struct "@ + b);
    opens_so("struct "@, b, "pub fn "@, 0);
    opens_so("struct "@, b, "fn "@, 0);
    assert("enum "@ + name + "{"@ + rest =~= "enum "@ + b);
    opens_so("enum "@, b, "pub fn "@, 0);
    opens_so("enum "@, b, "fn "@, 0);
    opens_so("enum "@, b, "struct "@, 0);
    assert("impl "@ + name + "{"@ + rest =~= "impl "@ + b);
    opens_so("impl "@, b, "pub fn "@, 0);
    opens_so("impl "@, b, "fn "@, 0);
    opens_so("impl "@, b, "struct "@, 0);
}

proof fn head_up_to(k: Seq<char>, name: Seq<char>, sign: Seq<char>, rest: Seq<char>)
    requires
        k.len() > 0,
        !text::is_white(k[0]),
        k == "fn "@ || k == "pub fn "@ || k == "struct "@ || k == "enum "@ || k == "impl "@,
        name.len() > 0,
        !text::is_white(name.last()),
        sign == "("@ || sign == "{"@,
        !name.contains('('),
        !name.contains('{'),
    ensures
        pieces::before_text(k + name + sign + rest, sign) == k + name,
        text::trim(k + name) == k + name,
{
    reveal_strlit("fn ");
    reveal_strlit("pub fn ");
    reveal_strlit("struct ");
    reveal_strlit("enum ");
    reveal_strlit("impl ");
    reveal_strlit("(");
    reveal_strlit("{");
    let a = k + name;
    assert(!a.contains(sign[0])) by {
        if a.contains(sign[0]) {
            let i = a.index_of(sign[0]);
            if i >= k.len() {
                assert(a[i] == name[i - k.len()]);
                assert(name.contains(name[i - k.len()]));
            }
        }
    }
    text::found_behind(a, sign, rest);
    text::lead_bound(a, CharSet::White, true);
    assert(a[0] == k[0]);
    assert(text::lead(a, CharSet::White, true) == 0);
    assert(a.skip(0) =~= a);
    assert(a.last() == name.last());
    assert(a.take(a.len() as int) =~= a);
}

/// A read is told by the file and the lines that were shown, and every other
/// result by its summary.
pub proof fn reads_are_told_by_their_file(tool: Seq<char>, output: Seq<char>)
    ensures
        ({
            let ls = pieces::lines(output);
            let first = if ls.len() > 0 {
                ls[0]
            } else {
                Seq::empty()
            };
            let shown = ls.filter(|l: Seq<char>| text::contains(l, " | "@)).len();
            &&& tool != "read_file"@ ==> display_of(tool, output) == summary_of(tool, output)
            &&& !(first.len() > 0 && first[0] == '[') ==> display_of("read_file"@, output)
                == "✓ Read file ("@ + number::decimal(ls.len()) + " lines)"@
            &&& first.len() > 0 && first[0] == '[' && shown > 0 ==> display_of("read_file"@, output)
                == "✓ Read "@ + budget::header_path(first) + " ("@ + number::decimal(shown)
                + " lines shown)"@
        }),
{
    reveal_strlit("[");
    let ls = pieces::lines(output);
    let first = pieces::first_line(output);
    budget::lines_are_counted(ls, " | "@);
    if first.len() > 0 {
        assert(first.subrange(0, 1)[0] == first[0]);
        if first[0] == '[' {
            assert(first.subrange(0, 1) =~= "["@);
        }
    }
}

} // verus!
