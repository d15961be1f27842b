//! Commands that run at set points of the work.

use crate::config::clone_texts;
use crate::history;
use crate::history::truncate_to_lines;
use crate::number;
use crate::number::padded_right;
use crate::pieces;
use crate::pieces::{join_with, lines_of};
use crate::text;
use crate::text::{begins_with, count, finishes_with, holds, trim_front_by, CharSet};
use vstd::prelude::*;

verus! {

broadcast use crate::text::views_push;

/// The commands of each point.
#[derive(Debug, PartialEq, Eq)]
pub struct HookConfig {
    /// Run after every edit; the model sees what they print.
    pub on_edit: Vec<String>,
    /// Run when a task is done.
    pub on_task_done: Vec<String>,
    /// Run when a step of a plan is done.
    pub on_plan_step_done: Vec<String>,
    /// Run when a session starts.
    pub on_session_start: Vec<String>,
    /// Run when a session ends.
    pub on_session_end: Vec<String>,
}

/// What a `HookConfig` says.
#[verifier::ext_equal]
pub struct HookView {
    pub on_edit: Seq<Seq<char>>,
    pub on_task_done: Seq<Seq<char>>,
    pub on_plan_step_done: Seq<Seq<char>>,
    pub on_session_start: Seq<Seq<char>>,
    pub on_session_end: Seq<Seq<char>>,
}

impl View for HookConfig {
    type V = HookView;

    open spec fn view(&self) -> HookView {
        HookView {
            on_edit: text::views(self.on_edit@),
            on_task_done: text::views(self.on_task_done@),
            on_plan_step_done: text::views(self.on_plan_step_done@),
            on_session_start: text::views(self.on_session_start@),
            on_session_end: text::views(self.on_session_end@),
        }
    }
}

/// What a command printed, and how it ended.
#[derive(Debug)]
pub struct HookResult {
    pub output: String,
    pub exit_code: i32,
}

/// How the run of a command went.
#[derive(Debug)]
pub enum HookRun {
    /// It ended, with a code unless a signal ended it.
    Ended { code: Option<i32>, stdout: String, stderr: String },
    /// It could not be started.
    NotStarted { error: String },
    /// It took too long.
    TimedOut,
}

pub const HOOK_TIMEOUT_SECS: u64 = 30;

pub const HOOK_MAX_LINES: usize = 50;

/// The points with their commands.
pub open spec fn points(h: HookView) -> Seq<(Seq<char>, Seq<Seq<char>>)> {
    seq![
        ("on_edit"@, h.on_edit),
        ("on_task_done"@, h.on_task_done),
        ("on_plan_step_done"@, h.on_plan_step_done),
        ("on_session_start"@, h.on_session_start),
        ("on_session_end"@, h.on_session_end),
    ]
}

/// The points up to `n` that have commands, each in the form that `f` gives.
pub open spec fn active(
    ps: Seq<(Seq<char>, Seq<Seq<char>>)>,
    f: spec_fn(Seq<char>, Seq<Seq<char>>) -> Seq<char>,
) -> Seq<Seq<char>>
    decreases ps.len(),
{
    if ps.len() == 0 {
        Seq::empty()
    } else {
        let rest = active(ps.drop_last(), f);
        let (label, cmds) = ps.last();
        if cmds.len() > 0 {
            rest.push(f(label, cmds))
        } else {
            rest
        }
    }
}

/// A point with its commands on one line.
pub open spec fn brief(label: Seq<char>, cmds: Seq<Seq<char>>) -> Seq<char> {
    label + ": "@ + pieces::join(cmds, ", "@)
}

pub open spec fn bullets(cmds: Seq<Seq<char>>) -> Seq<char>
    decreases cmds.len(),
{
    if cmds.len() == 0 {
        Seq::empty()
    } else {
        bullets(cmds.drop_last()) + "\n    · "@ + cmds.last()
    }
}

/// A point with a line for each command.
pub open spec fn listing(label: Seq<char>, cmds: Seq<Seq<char>>) -> Seq<char> {
    if cmds.len() == 0 {
        "  "@ + number::pad_right(label, 20) + " (none)"@
    } else {
        "  "@ + number::pad_right(label, 20) + bullets(cmds)
    }
}

pub open spec fn quoted(cmds: Seq<Seq<char>>) -> Seq<Seq<char>> {
    Seq::new(cmds.len(), |i: int| "  \""@ + cmds[i] + "\""@)
}

/// A point with its commands as a setting.
pub open spec fn setting(label: Seq<char>, cmds: Seq<Seq<char>>) -> Seq<char> {
    label + " = [\n"@ + pieces::join(quoted(cmds), ",\n"@) + "\n]"@
}

impl Clone for HookConfig {
    fn clone(&self) -> (r: Self)
        ensures
            r@ == self@,
    {
        HookConfig {
            on_edit: clone_texts(&self.on_edit),
            on_task_done: clone_texts(&self.on_task_done),
            on_plan_step_done: clone_texts(&self.on_plan_step_done),
            on_session_start: clone_texts(&self.on_session_start),
            on_session_end: clone_texts(&self.on_session_end),
        }
    }
}

impl Default for HookConfig {
    fn default() -> (r: Self)
        ensures
            r@ == (HookView {
                on_edit: Seq::empty(),
                on_task_done: Seq::empty(),
                on_plan_step_done: Seq::empty(),
                on_session_start: Seq::empty(),
                on_session_end: Seq::empty(),
            }),
    {
        proof {
            text::views_empty();
        }
        HookConfig {
            on_edit: Vec::new(),
            on_task_done: Vec::new(),
            on_plan_step_done: Vec::new(),
            on_session_start: Vec::new(),
            on_session_end: Vec::new(),
        }
    }
}

fn add_brief(parts: &mut Vec<String>, label: &str, cmds: &Vec<String>)
    ensures
        text::views(final(parts)@) == (if cmds.len() > 0 {
            text::views(old(parts)@).push(brief(label@, text::views(cmds@)))
        } else {
            text::views(old(parts)@)
        }),
{
    if cmds.len() > 0 {
        let mut s = label.to_owned();
        s.append(": ");
        s.append(join_with(cmds, ", ").as_str());
        parts.push(s);
    }
}

fn list_point(label: &str, cmds: &Vec<String>) -> (r: String)
    ensures
        r@ == listing(label@, text::views(cmds@)),
{
    let ghost cv = text::views(cmds@);
    assert(cv.len() == cmds@.len());
    let mut out = "  ".to_owned();
    out.append(padded_right(label, 20).as_str());
    if cmds.len() == 0 {
        out.append(" (none)");
        return out;
    }
    let ghost front = out@;
    let mut i: usize = 0;
    assert(cv.take(0) =~= Seq::<Seq<char>>::empty());
    assert(front + bullets(cv.take(0)) =~= front);
    while i < cmds.len()
        invariant
            i <= cmds.len(),
            cv == text::views(cmds@),
            out@ == front + bullets(cv.take(i as int)),
        decreases cmds.len() - i,
    {
        out.append("\n    · ");
        out.append(cmds[i].as_str());
        assert(cv.take(i + 1).drop_last() =~= cv.take(i as int));
        assert(cv.take(i + 1).last() == cmds@[i as int]@);
        assert(out@ =~= front + bullets(cv.take(i + 1)));
        i += 1;
    }
    assert(cv.take(i as int) =~= cv);
    out
}

fn add_setting(lines: &mut Vec<String>, label: &str, cmds: &Vec<String>)
    ensures
        text::views(final(lines)@) == (if cmds.len() > 0 {
            text::views(old(lines)@).push(setting(label@, text::views(cmds@)))
        } else {
            text::views(old(lines)@)
        }),
{
    if cmds.len() > 0 {
        let ghost cv = text::views(cmds@);
        let mut items: Vec<String> = Vec::new();
        let mut i: usize = 0;
        while i < cmds.len()
            invariant
                i <= cmds.len(),
                items.len() == i,
                cv == text::views(cmds@),
                forall|k: int|
                    0 <= k < i ==> (#[trigger] items@[k])@ == "  \""@ + cv[k] + "\""@,
            decreases cmds.len() - i,
        {
            let mut s = "  \"".to_owned();
            s.append(cmds[i].as_str());
            s.append("\"");
            items.push(s);
            i += 1;
        }
        assert(text::views(items@) =~= quoted(cv));
        let mut s = label.to_owned();
        s.append(" = [\n");
        s.append(join_with(&items, ",\n").as_str());
        s.append("\n]");
        lines.push(s);
    }
}

proof fn active_step(
    ps: Seq<(Seq<char>, Seq<Seq<char>>)>,
    f: spec_fn(Seq<char>, Seq<Seq<char>>) -> Seq<char>,
    n: int,
)
    requires
        0 <= n < ps.len(),
    ensures
        active(ps.take(n + 1), f) == (if ps[n].1.len() > 0 {
            active(ps.take(n), f).push(f(ps[n].0, ps[n].1))
        } else {
            active(ps.take(n), f)
        }),
{
    assert(ps.take(n + 1).drop_last() =~= ps.take(n));
    assert(ps.take(n + 1).last() == ps[n]);
}

/// The active points among the first `n + 1`, from those among the first `n`.
spec fn grown(h: HookView, f: spec_fn(Seq<char>, Seq<Seq<char>>) -> Seq<char>, n: int) -> bool {
    active(points(h).take(n + 1), f) == (if points(h)[n].1.len() > 0 {
        active(points(h).take(n), f).push(f(points(h)[n].0, points(h)[n].1))
    } else {
        active(points(h).take(n), f)
    })
}

proof fn active_all(h: HookView, f: spec_fn(Seq<char>, Seq<Seq<char>>) -> Seq<char>)
    ensures
        grown(h, f, 0),
        grown(h, f, 1),
        grown(h, f, 2),
        grown(h, f, 3),
        grown(h, f, 4),
        active(points(h).take(0), f) == Seq::<Seq<char>>::empty(),
        points(h).take(5) == points(h),
{
    active_step(points(h), f, 0);
    active_step(points(h), f, 1);
    active_step(points(h), f, 2);
    active_step(points(h), f, 3);
    active_step(points(h), f, 4);
    assert(points(h).take(5) =~= points(h));
}

impl HookConfig {
    /// Whether no point has a command.
    pub fn is_empty(&self) -> (r: bool)
        ensures
            r == (forall|i: int| 0 <= i < 5 ==> (#[trigger] points(self@)[i]).1.len() == 0),
    {
        let ghost ps = points(self@);
        assert(ps[0].1.len() == self.on_edit@.len());
        assert(ps[1].1.len() == self.on_task_done@.len());
        assert(ps[2].1.len() == self.on_plan_step_done@.len());
        assert(ps[3].1.len() == self.on_session_start@.len());
        assert(ps[4].1.len() == self.on_session_end@.len());
        self.on_edit.len() == 0 && self.on_task_done.len() == 0 && self.on_plan_step_done.len()
            == 0 && self.on_session_start.len() == 0 && self.on_session_end.len() == 0
    }

    /// The points that have commands, on one line.
    pub fn summary(&self) -> (r: Option<String>)
        ensures
            ({
                let parts = active(
                    points(self@),
                    |label: Seq<char>, cmds: Seq<Seq<char>>| brief(label, cmds),
                );
                match r {
                    Some(s) => parts.len() > 0 && s@ == pieces::join(parts, "  ·  "@),
                    None => parts.len() == 0,
                }
            }),
    {
        let ghost f = |label: Seq<char>, cmds: Seq<Seq<char>>| brief(label, cmds);
        let mut parts: Vec<String> = Vec::new();
        proof {
            text::views_empty();
            active_all(self@, f);
        }
        add_brief(&mut parts, "on_edit", &self.on_edit);
        assert(text::views(parts@) == active(points(self@).take(1), f));
        add_brief(&mut parts, "on_task_done", &self.on_task_done);
        assert(text::views(parts@) == active(points(self@).take(2), f));
        add_brief(&mut parts, "on_plan_step_done", &self.on_plan_step_done);
        assert(text::views(parts@) == active(points(self@).take(3), f));
        add_brief(&mut parts, "on_session_start", &self.on_session_start);
        assert(text::views(parts@) == active(points(self@).take(4), f));
        add_brief(&mut parts, "on_session_end", &self.on_session_end);
        assert(text::views(parts@) == active(points(self@).take(5), f));
        assert(text::views(parts@).len() == parts@.len());
        if parts.len() == 0 {
            None
        } else {
            Some(join_with(&parts, "  ·  "))
        }
    }

    /// All points with all their commands.
    pub fn detail(&self) -> (r: String)
        ensures
            r@ == pieces::join(
                Seq::new(5, |i: int| listing(points(self@)[i].0, points(self@)[i].1)),
                "\n"@,
            ),
    {
        let mut parts: Vec<String> = Vec::new();
        parts.push(list_point("on_edit", &self.on_edit));
        parts.push(list_point("on_task_done", &self.on_task_done));
        parts.push(list_point("on_plan_step_done", &self.on_plan_step_done));
        parts.push(list_point("on_session_start", &self.on_session_start));
        parts.push(list_point("on_session_end", &self.on_session_end));
        assert(text::views(parts@) =~= Seq::new(
            5,
            |i: int| listing(points(self@)[i].0, points(self@)[i].1),
        ));
        join_with(&parts, "\n")
    }
}

// ── The settings file ────────────────────────────────────────────────────────

/// The section of a set of hooks in the settings file.
pub open spec fn section(name: Seq<char>, h: HookView) -> Seq<char> {
    pieces::join(
        seq!["\n[hooks."@ + name + "]"@] + active(
            points(h),
            |label: Seq<char>, cmds: Seq<Seq<char>>| setting(label, cmds),
        ) + seq![Seq::<char>::empty()],
        "\n"@,
    )
}

/// What is to be added to the settings file for a set of hooks; nothing if
/// it has a section of that name.
pub fn config_section(existing: &str, name: &str, cfg: &HookConfig) -> (r: Option<String>)
    ensures
        text::opt_text(r) == (if text::contains(existing@, "[hooks."@ + name@ + "]"@) {
            None
        } else {
            Some(section(name@, cfg@))
        }),
{
    let mut header = "[hooks.".to_owned();
    header.append(name);
    header.append("]");
    if holds(existing, header.as_str()) {
        return None;
    }
    let ghost f = |label: Seq<char>, cmds: Seq<Seq<char>>| setting(label, cmds);
    let ghost front = seq!["\n[hooks."@ + name@ + "]"@];
    let mut lines: Vec<String> = Vec::new();
    let mut first = "\n[hooks.".to_owned();
    first.append(name);
    first.append("]");
    proof {
        text::views_empty();
        active_all(cfg@, f);
    }
    lines.push(first);
    assert(text::views(lines@) =~= front + active(points(cfg@).take(0), f));
    add_setting(&mut lines, "on_edit", &cfg.on_edit);
    assert(text::views(lines@) =~= front + active(points(cfg@).take(1), f));
    add_setting(&mut lines, "on_task_done", &cfg.on_task_done);
    assert(text::views(lines@) =~= front + active(points(cfg@).take(2), f));
    add_setting(&mut lines, "on_plan_step_done", &cfg.on_plan_step_done);
    assert(text::views(lines@) =~= front + active(points(cfg@).take(3), f));
    add_setting(&mut lines, "on_session_start", &cfg.on_session_start);
    assert(text::views(lines@) =~= front + active(points(cfg@).take(4), f));
    add_setting(&mut lines, "on_session_end", &cfg.on_session_end);
    assert(text::views(lines@) =~= front + active(points(cfg@).take(5), f));
    let ghost before = text::views(lines@);
    lines.push(String::new());
    assert(text::views(lines@) =~= before + seq![Seq::<char>::empty()]);
    Some(join_with(&lines, "\n"))
}

/// Whether a line sets the active hooks.
pub open spec fn sets_active(line: Seq<char>) -> bool {
    text::begins(text::trim_start_set(line, CharSet::White), "active_hooks"@)
}

/// Whether a line opens a section.
pub open spec fn opens_section(line: Seq<char>) -> bool {
    text::begins(text::trim_start_set(line, CharSet::White), "["@)
}

pub open spec fn without_active(ls: Seq<Seq<char>>) -> Seq<Seq<char>>
    decreases ls.len(),
{
    if ls.len() == 0 {
        Seq::empty()
    } else if sets_active(ls.last()) {
        without_active(ls.drop_last())
    } else {
        without_active(ls.drop_last()).push(ls.last())
    }
}

/// How many lines stand before the first section.
pub open spec fn before_sections(ls: Seq<Seq<char>>) -> nat
    decreases ls.len(),
{
    if ls.len() == 0 || opens_section(ls[0]) {
        0
    } else {
        1 + before_sections(ls.skip(1))
    }
}

/// The lines with one more, before the first section.
pub open spec fn placed(ls: Seq<Seq<char>>, line: Seq<char>) -> Seq<Seq<char>> {
    let n = before_sections(ls) as int;
    if n < ls.len() {
        ls.take(n) + seq![line, Seq::<char>::empty()] + ls.skip(n)
    } else {
        ls + seq![Seq::<char>::empty(), line]
    }
}

pub open spec fn active_line(name: Seq<char>) -> Seq<char> {
    "active_hooks = \""@ + name + "\""@
}

/// The settings with the active hooks set, or with none set.
pub open spec fn with_active(existing: Seq<char>, name: Option<Seq<char>>) -> Seq<char> {
    let ls = without_active(pieces::lines(existing));
    let new = match name {
        Some(n) => placed(ls, active_line(n)),
        None => ls,
    };
    pieces::join(new, "\n"@) + if text::ends(existing, "\n"@) {
        "\n"@
    } else {
        Seq::empty()
    }
}

proof fn before_sections_bound(ls: Seq<Seq<char>>)
    ensures
        before_sections(ls) <= ls.len(),
        forall|i: int| 0 <= i < before_sections(ls) ==> !opens_section(#[trigger] ls[i]),
        before_sections(ls) < ls.len() ==> opens_section(ls[before_sections(ls) as int]),
    decreases ls.len(),
{
    if ls.len() > 0 && !opens_section(ls[0]) {
        before_sections_bound(ls.skip(1));
        assert forall|i: int| 0 <= i < before_sections(ls) implies !opens_section(
            #[trigger] ls[i],
        ) by {
            if i > 0 {
                assert(ls.skip(1)[i - 1] == ls[i]);
            }
        }
    }
}

/// The line that sets the active hooks stands before every section.
pub proof fn active_is_on_top(ls: Seq<Seq<char>>, line: Seq<char>)
    ensures
        exists|i: int|
            0 <= i < placed(ls, line).len() && #[trigger] placed(ls, line)[i] == line && forall|
                j: int,
            | 0 <= j < i ==> !opens_section(#[trigger] placed(ls, line)[j]),
{
    before_sections_bound(ls);
    let n = before_sections(ls) as int;
    let new = placed(ls, line);
    reveal_strlit("[");
    assert(!opens_section(Seq::<char>::empty()));
    if n < ls.len() {
        assert(new[n] == line);
        assert(forall|j: int| 0 <= j < n ==> #[trigger] new[j] == ls[j]);
    } else {
        assert(new[ls.len() as int + 1] == line);
        assert(new[ls.len() as int] == Seq::<char>::empty());
        assert(forall|j: int| 0 <= j < ls.len() ==> #[trigger] new[j] == ls[j]);
    }
}

/// The settings with the active hooks set, or with none set.
pub fn set_active_hooks(existing: &str, name: Option<&str>) -> (r: String)
    ensures
        r@ == with_active(
            existing@,
            match name {
                Some(n) => Some(n@),
                None => None,
            },
        ),
{
    let all = lines_of(existing);
    let ghost av = text::views(all@);
    let mut ls: Vec<String> = Vec::new();
    let mut i: usize = 0;
    proof {
        text::views_empty();
        assert(av.take(0) =~= Seq::<Seq<char>>::empty());
    }
    while i < all.len()
        invariant
            i <= all.len(),
            av == text::views(all@),
            text::views(ls@) == without_active(av.take(i as int)),
        decreases all.len() - i,
    {
        assert(av.take(i + 1).drop_last() =~= av.take(i as int));
        assert(av.take(i + 1).last() == all@[i as int]@);
        let t = trim_front_by(all[i].as_str(), CharSet::White);
        if !begins_with(t.as_str(), "active_hooks") {
            ls.push(all[i].clone());
        }
        i += 1;
    }
    assert(av.take(i as int) =~= av);
    let ghost lv = text::views(ls@);
    assert(lv.len() == ls@.len());
    if let Some(n) = name {
        let mut line = "active_hooks = \"".to_owned();
        line.append(n);
        line.append("\"");
        let mut at: usize = 0;
        assert(lv.skip(0) =~= lv);
        let mut open = false;
        while at < ls.len() && !open
            invariant
                at <= ls.len(),
                lv == text::views(ls@),
                !open ==> before_sections(lv) == at + before_sections(lv.skip(at as int)),
                open ==> before_sections(lv) == at && at < ls.len(),
            decreases ls.len() - at + if open {
                0int
            } else {
                1
            },
        {
            assert(lv.skip(at as int)[0] == ls@[at as int]@);
            assert(lv.skip(at as int).skip(1) =~= lv.skip(at + 1));
            let t = trim_front_by(ls[at].as_str(), CharSet::White);
            if begins_with(t.as_str(), "[") {
                open = true;
            } else {
                at += 1;
            }
        }
        if at < ls.len() {
            ls.insert(at, line);
            ls.insert(at + 1, String::new());
        } else {
            ls.push(String::new());
            ls.push(line);
        }
        assert(text::views(ls@) =~= placed(lv, active_line(n@)));
    }
    let mut out = join_with(&ls, "\n");
    let ghost joined = out@;
    if finishes_with(existing, "\n") {
        out.append("\n");
    }
    assert(out@ =~= with_active(
        existing@,
        match name {
            Some(n) => Some(n@),
            None => None,
        },
    ));
    out
}

// ── Runs ─────────────────────────────────────────────────────────────────────

/// What a command printed: its output, then its errors.
pub open spec fn merged(stdout: Seq<char>, stderr: Seq<char>) -> Seq<char> {
    if stdout.len() == 0 {
        stderr
    } else if stderr.len() == 0 {
        stdout
    } else {
        stdout + "\n"@ + stderr
    }
}

/// The result of a run.
pub open spec fn run_output(run: HookRun) -> Seq<char> {
    match run {
        HookRun::Ended { code, stdout, stderr } => history::truncated(
            merged(stdout@, stderr@),
            HOOK_MAX_LINES as int,
        ),
        HookRun::NotStarted { error } => "[hook failed to start: "@ + error@ + "]"@,
        HookRun::TimedOut => "[hook timed out after 30s]"@,
    }
}

pub open spec fn run_code(run: HookRun) -> int {
    match run {
        HookRun::Ended { code: Some(c), stdout, stderr } => c as int,
        _ => -1,
    }
}

/// The result of a run.
pub fn hook_result(run: HookRun) -> (r: HookResult)
    ensures
        r.output@ == run_output(run),
        r.exit_code == run_code(run),
{
    match run {
        HookRun::Ended { code, stdout, stderr } => {
            let exit_code: i32 = match code {
                Some(c) => c,
                None => -1,
            };
            let combined = if count(stdout.as_str()) == 0 {
                stderr
            } else if count(stderr.as_str()) == 0 {
                stdout
            } else {
                let mut s = stdout;
                s.append("\n");
                s.append(stderr.as_str());
                s
            };
            HookResult { output: truncate_to_lines(combined.as_str(), HOOK_MAX_LINES), exit_code }
        },
        HookRun::NotStarted { error } => {
            let mut s = "[hook failed to start: ".to_owned();
            s.append(error.as_str());
            s.append("]");
            HookResult { output: s, exit_code: -1 }
        },
        HookRun::TimedOut => HookResult {
            output: "[hook timed out after 30s]".to_owned(),
            exit_code: -1,
        },
    }
}

/// The points at which commands run are shown, in their order, and no others.
pub proof fn points_with_commands_are_shown(
    ps: Seq<(Seq<char>, Seq<Seq<char>>)>,
    f: spec_fn(Seq<char>, Seq<Seq<char>>) -> Seq<char>,
)
    ensures
        active(ps, f) == ps.filter(|p: (Seq<char>, Seq<Seq<char>>)| p.1.len() > 0).map_values(
            |p: (Seq<char>, Seq<Seq<char>>)| f(p.0, p.1),
        ),
    decreases ps.len(),
{
    reveal(Seq::filter);
    let some = |p: (Seq<char>, Seq<Seq<char>>)| p.1.len() > 0;
    let show = |p: (Seq<char>, Seq<Seq<char>>)| f(p.0, p.1);
    if ps.len() > 0 {
        let t = ps.drop_last();
        points_with_commands_are_shown(t, f);
        assert(t.filter(some).push(ps.last()).map_values(show) =~= t.filter(some).map_values(
            show,
        ).push(show(ps.last())));
    } else {
        assert(ps.filter(some).map_values(show) =~= Seq::empty());
    }
}

/// Only the lines that set the active hooks go.
pub proof fn other_settings_stay(ls: Seq<Seq<char>>)
    ensures
        without_active(ls) == ls.filter(
            |l: Seq<char>|
                !text::begins(text::trim_start_set(l, CharSet::White), "active_hooks"@),
        ),
    decreases ls.len(),
{
    reveal(Seq::filter);
    if ls.len() > 0 {
        other_settings_stay(ls.drop_last());
    }
}

/// Every line stays where it is, and the new one stands in front of the first
/// section, or at the end where there is none.
pub proof fn lines_stay_around_the_new_one(ls: Seq<Seq<char>>, line: Seq<char>, n: int)
    requires
        0 <= n <= ls.len(),
        forall|k: int| 0 <= k < n ==> !opens_section(#[trigger] ls[k]),
        n < ls.len() ==> opens_section(ls[n]),
    ensures
        n < ls.len() ==> placed(ls, line) == ls.take(n) + seq![line, Seq::<char>::empty()] + ls.skip(n),
        n == ls.len() ==> placed(ls, line) == ls + seq![Seq::<char>::empty(), line],
{
    sections_begin_at(ls, n);
}

proof fn sections_begin_at(ls: Seq<Seq<char>>, n: int)
    requires
        0 <= n <= ls.len(),
        forall|k: int| 0 <= k < n ==> !opens_section(#[trigger] ls[k]),
        n < ls.len() ==> opens_section(ls[n]),
    ensures
        before_sections(ls) == n,
    decreases n,
{
    if n > 0 {
        let t = ls.skip(1);
        assert forall|k: int| 0 <= k < n - 1 implies !opens_section(#[trigger] t[k]) by {
            assert(t[k] == ls[k + 1]);
        }
        if n < ls.len() {
            assert(t[n - 1] == ls[n]);
        }
        assert(!opens_section(ls[0]));
        sections_begin_at(t, n - 1);
    }
}

/// What a hook printed is shown, what it said of errors behind the rest, and
/// nothing else where one of them is empty. A hook that did not end has the
/// code of a failure.
pub proof fn both_outputs_are_shown(out: Seq<char>, err: Seq<char>, run: HookRun)
    ensures
        text::begins(merged(out, err), out),
        text::ends(merged(out, err), err),
        out.len() > 0 && err.len() > 0 ==> merged(out, err).len() == out.len() + 1 + err.len(),
        out.len() == 0 || err.len() == 0 ==> merged(out, err).len() == out.len() + err.len(),
        !(run is Ended) ==> run_code(run) == -1,
        run matches HookRun::Ended { code, .. } ==> run_code(run) == (match code {
            Some(c) => c as int,
            None => -1,
        }),
{
    reveal_strlit("\n");
    let m = merged(out, err);
    assert(m.subrange(0, out.len() as int) =~= out);
    assert(m.subrange(m.len() - err.len(), m.len() as int) =~= err);
}

/// What a hook printed is shown whole up to fifty lines, and of more the first
/// fifty are shown; why one did not end is told.
pub proof fn hook_output_is_told(run: HookRun)
    ensures
        run matches HookRun::Ended { stdout, stderr, .. } ==> {
            let all = merged(stdout@, stderr@);
            let ls = pieces::lines(all);
            &&& ls.len() <= 50 ==> run_output(run) == all
            &&& ls.len() > 50 ==> run_output(run) == pieces::join(ls.take(50), "\n"@) + "\n[+"@
                + number::decimal((ls.len() - 50) as nat) + " lines truncated]"@
        },
        run matches HookRun::NotStarted { error } ==> run_output(run) == "[hook failed to start: "@
            + error@ + "]"@,
        run is TimedOut ==> run_output(run) == "[hook timed out after 30s]"@,
{
}

} // verus!
