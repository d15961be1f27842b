//! Plans: steps that are carried out one by one, each in a fresh context.

use crate::clock::now;
use crate::index;
use crate::index::Symbol;
use crate::number;
use crate::number::{decimal_usize, signed_of};
use crate::pie;
use crate::pie::{first_strings, ProjectGraph};
use crate::pieces;
use crate::pieces::{
    before_first, join_with, lines_of, split_at_text, split_first, trim_front_text, words_of,
};
use crate::text;
use crate::text::{begins_with, count, holds, same, strip_prefix, trimmed};
use vstd::prelude::*;

verus! {

broadcast use crate::text::views_push;

#[derive(Debug, Clone, Copy, PartialEq, Eq, Structural)]
pub enum PlanStatus {
    Pending,
    Running,
    Complete,
    Failed,
}

#[derive(Debug, Clone, Copy, PartialEq, Eq, Structural)]
pub enum StepStatus {
    /// Not looked at yet.
    Pending,
    /// Accepted, and waiting to be carried out.
    Approved,
    Running,
    Pass,
    Fail,
    Skipped,
}

/// How to tell whether a step succeeded.
#[derive(Debug)]
pub enum Verification {
    /// Nothing is looked at.
    Unchecked,
    /// A file was changed.
    FileChanged(String),
    /// A pattern is gone from a file.
    PatternAbsent { file: String, pattern: String },
    /// A command exits with 0.
    CommandSuccess(String),
    /// Passes.
    BuildSuccess,
}

pub enum VerificationView {
    Unchecked,
    FileChanged(Seq<char>),
    PatternAbsent(Seq<char>, Seq<char>),
    CommandSuccess(Seq<char>),
    BuildSuccess,
}

impl View for Verification {
    type V = VerificationView;

    open spec fn view(&self) -> VerificationView {
        match self {
            Verification::Unchecked => VerificationView::Unchecked,
            Verification::FileChanged(p) => VerificationView::FileChanged(p@),
            Verification::PatternAbsent { file, pattern } => VerificationView::PatternAbsent(
                file@,
                pattern@,
            ),
            Verification::CommandSuccess(c) => VerificationView::CommandSuccess(c@),
            Verification::BuildSuccess => VerificationView::BuildSuccess,
        }
    }
}

#[derive(Debug)]
pub struct PlanStep {
    /// What is shown to the user.
    pub description: String,
    /// What the model is told.
    pub instruction: String,
    /// The files the model gets to see.
    pub files: Vec<String>,
    pub verify: Verification,
    pub status: StepStatus,
    /// How many tool calls the step may make.
    pub tool_budget: usize,
    /// A note of the user, put behind the instruction.
    pub user_annotation: Option<String>,
    /// What was done, once the step is complete.
    pub completed_summary: Option<String>,
}

/// What a `PlanStep` says.
#[verifier::ext_equal]
pub struct StepView {
    pub description: Seq<char>,
    pub instruction: Seq<char>,
    pub files: Seq<Seq<char>>,
    pub verify: VerificationView,
    pub status: StepStatus,
    pub tool_budget: int,
    pub user_annotation: Option<Seq<char>>,
    pub completed_summary: Option<Seq<char>>,
}

impl View for PlanStep {
    type V = StepView;

    open spec fn view(&self) -> StepView {
        StepView {
            description: self.description@,
            instruction: self.instruction@,
            files: text::views(self.files@),
            verify: self.verify@,
            status: self.status,
            tool_budget: self.tool_budget as int,
            user_annotation: text::opt_text(self.user_annotation),
            completed_summary: text::opt_text(self.completed_summary),
        }
    }
}

pub open spec fn step_views(v: Seq<PlanStep>) -> Seq<StepView> {
    Seq::new(v.len(), |i: int| v[i]@)
}

#[derive(Debug)]
pub struct Plan {
    pub task: String,
    pub steps: Vec<PlanStep>,
    pub current: usize,
    pub status: PlanStatus,
    /// When the plan was made, in Unix time.
    pub created_at: i64,
    /// The project's directory.
    pub project: String,
}

impl PlanStep {
    /// What the model is told: the instruction, and the user's note behind
    /// it where there is one.
    pub fn effective_instruction(&self) -> (r: String)
        ensures
            r@ == (match self.user_annotation {
                Some(note) => if text::trim(note@).len() > 0 {
                    self.instruction@ + "\n\nUser note: "@ + text::trim(note@)
                } else {
                    self.instruction@
                },
                None => self.instruction@,
            }),
    {
        let mut s = self.instruction.clone();
        match &self.user_annotation {
            Some(note) => {
                let t = trimmed(note.as_str());
                if !t.as_str().is_empty() {
                    s.append("\n\nUser note: ");
                    s.append(t.as_str());
                }
            },
            None => {},
        }
        s
    }
}

/// The token estimate of a step: a base, a quarter of the instruction's
/// characters, and the files.
pub open spec fn step_tokens(s: PlanStep, sizes: Seq<Option<usize>>) -> nat {
    500 + s.instruction@.len() / 4 + file_tokens(sizes)
}

/// A file counts a quarter of its characters, or 1000 where it cannot be
/// read.
pub open spec fn file_tokens(sizes: Seq<Option<usize>>) -> nat
    decreases sizes.len(),
{
    if sizes.len() == 0 {
        0
    } else {
        file_tokens(sizes.drop_last()) + (match sizes.last() {
            Some(n) => (n / 4) as nat,
            None => 1000nat,
        })
    }
}

/// The token estimate of the first `n` steps.
pub open spec fn plan_tokens(p: Plan, sizes: Seq<Vec<Option<usize>>>, n: int) -> nat
    decreases n,
{
    if n <= 0 {
        0
    } else {
        plan_tokens(p, sizes, n - 1) + step_tokens(p.steps@[n - 1], sizes[n - 1]@)
    }
}

/// A count, in thousands from a thousand on.
pub open spec fn thousands(n: nat) -> Seq<char> {
    if n >= 1000 {
        number::decimal(n / 1000) + "k"@
    } else {
        number::decimal(n)
    }
}

pub fn fmt_k(n: usize) -> (r: String)
    ensures
        r@ == thousands(n as nat),
{
    if n >= 1000 {
        let mut s = decimal_usize(n / 1000);
        s.append("k");
        s
    } else {
        decimal_usize(n)
    }
}

/// An estimate as it is shown.
pub fn estimate_text(low: usize, high: usize) -> (r: String)
    ensures
        r@ == "est. "@ + thousands(low as nat) + "–"@ + thousands(high as nat) + " tokens"@,
{
    let mut s = "est. ".to_owned();
    s.append(fmt_k(low).as_str());
    s.append("–");
    s.append(fmt_k(high).as_str());
    s.append(" tokens");
    s
}

proof fn plan_tokens_grow(p: Plan, sizes: Seq<Vec<Option<usize>>>, a: int, b: int)
    requires
        a <= b,
    ensures
        plan_tokens(p, sizes, a) <= plan_tokens(p, sizes, b),
    decreases b - a,
{
    if a < b {
        plan_tokens_grow(p, sizes, a, b - 1);
    }
}

proof fn file_tokens_grow(sizes: Seq<Option<usize>>, k: int)
    requires
        0 <= k <= sizes.len(),
    ensures
        file_tokens(sizes.take(k)) <= file_tokens(sizes),
    decreases sizes.len() - k,
{
    if k < sizes.len() {
        file_tokens_grow(sizes, k + 1);
        assert(sizes.take(k + 1).drop_last() =~= sizes.take(k));
    } else {
        assert(sizes.take(k) =~= sizes);
    }
}

impl Plan {
    /// A plan that has not begun, made at `created_at`.
    pub fn created(task: String, steps: Vec<PlanStep>, project: String, created_at: i64) -> (r: Self)
        ensures
            r.task == task,
            r.steps == steps,
            r.current == 0,
            r.status == PlanStatus::Pending,
            r.created_at == created_at,
            r.project == project,
    {
        Plan { task, steps, current: 0, status: PlanStatus::Pending, created_at, project }
    }

    /// A plan that has not begun, made now.
    pub fn new(task: String, steps: Vec<PlanStep>, project: String) -> (r: Self)
        ensures
            r.task == task,
            r.steps == steps,
            r.current == 0,
            r.status == PlanStatus::Pending,
            r.project == project,
    {
        let t: i64 = now();
        Plan::created(task, steps, project, t)
    }

    /// The tokens that the plan may take, at least and with what tools and
    /// answers add. The files' sizes, in characters, are given step by step.
    pub fn estimate_tokens(&self, sizes: &Vec<Vec<Option<usize>>>) -> (r: (usize, usize))
        requires
            sizes.len() == self.steps.len(),
            plan_tokens(*self, sizes@, self.steps@.len() as int) * 13 <= usize::MAX,
        ensures
            r.0 == plan_tokens(*self, sizes@, self.steps@.len() as int),
            r.1 == plan_tokens(*self, sizes@, self.steps@.len() as int) * 13 / 10,
    {
        let mut raw: usize = 0;
        let mut i: usize = 0;
        let ghost total = plan_tokens(*self, sizes@, self.steps@.len() as int);
        while i < self.steps.len()
            invariant
                i <= self.steps.len(),
                sizes.len() == self.steps.len(),
                raw == plan_tokens(*self, sizes@, i as int),
                total == plan_tokens(*self, sizes@, self.steps@.len() as int),
                total * 13 <= usize::MAX,
            decreases self.steps.len() - i,
        {
            proof {
                plan_tokens_grow(*self, sizes@, i + 1, self.steps@.len() as int);
            }
            let own: usize = count(self.steps[i].instruction.as_str()) / 4;
            let fs = &sizes[i];
            let mut files: usize = 0;
            let mut j: usize = 0;
            assert(fs@.take(0) =~= Seq::<Option<usize>>::empty());
            while j < fs.len()
                invariant
                    j <= fs.len(),
                    files == file_tokens(fs@.take(j as int)),
                    file_tokens(fs@) <= usize::MAX,
                decreases fs.len() - j,
            {
                proof {
                    assert(fs@.take(j + 1).drop_last() =~= fs@.take(j as int));
                    file_tokens_grow(fs@, j + 1);
                }
                let n: usize = match fs[j] {
                    Some(n) => n / 4,
                    None => 1000,
                };
                files = files + n;
                j += 1;
            }
            assert(fs@.take(j as int) =~= fs@);
            raw = raw + (500 + own + files);
            i += 1;
        }
        (raw * 10 / 10, raw * 13 / 10)
    }

    /// The name of the file that keeps the plan.
    pub fn file_name(&self) -> (r: String)
        ensures
            r@ == number::signed(self.created_at as int) + ".json"@,
    {
        let mut s = signed_of(self.created_at);
        s.append(".json");
        s
    }
}

/// Where plans are kept, below the working directory.
pub fn plans_dir() -> (r: &'static str)
    ensures
        r@ == ".parecode/plans"@,
{
    ".parecode/plans"
}

// ── Steps as the model gives them ────────────────────────────────────────────

/// A step as it stands in the model's answer.
#[derive(Debug)]
pub struct PlanStepRaw {
    pub description: String,
    pub instruction: String,
    pub files: Vec<String>,
    pub verify: String,
    pub tool_budget: usize,
}

pub fn default_verify() -> (r: String)
    ensures
        r@ == "none"@,
{
    "none".to_owned()
}

/// How many tools a step may call where its plan does not say.
pub fn default_tool_budget() -> (r: usize)
    ensures
        r == 8,
{
    8
}

/// What a verification is written as.
pub open spec fn verification_of(s: Seq<char>) -> VerificationView {
    if s == "none"@ || s.len() == 0 {
        VerificationView::Unchecked
    } else if s == "build"@ {
        VerificationView::BuildSuccess
    } else if let Some(rest) = text::behind(s, "command:"@) {
        VerificationView::CommandSuccess(rest)
    } else if let Some(rest) = text::behind(s, "changed:"@) {
        VerificationView::FileChanged(rest)
    } else if let Some(rest) = text::behind(s, "absent:"@) {
        match pieces::split_once(rest, ":"@) {
            Some((file, pattern)) => VerificationView::PatternAbsent(file, pattern),
            None => VerificationView::PatternAbsent(rest, Seq::empty()),
        }
    } else {
        VerificationView::Unchecked
    }
}

/// Reads a verification.
pub fn parse_verification(s: &str) -> (r: Verification)
    ensures
        r@ == verification_of(s@),
{
    if same(s, "none") || s.is_empty() {
        return Verification::Unchecked;
    }
    if same(s, "build") {
        return Verification::BuildSuccess;
    }
    if let Some(rest) = strip_prefix(s, "command:") {
        return Verification::CommandSuccess(rest);
    }
    if let Some(rest) = strip_prefix(s, "changed:") {
        return Verification::FileChanged(rest);
    }
    if let Some(rest) = strip_prefix(s, "absent:") {
        return match split_first(rest.as_str(), ":") {
            Some((file, pattern)) => Verification::PatternAbsent { file, pattern },
            None => Verification::PatternAbsent { file: rest, pattern: String::new() },
        };
    }
    Verification::Unchecked
}

/// The step to carry out: ten files at most, and twenty-five tool calls.
pub open spec fn step_of(
    raw: PlanStepRaw,
    by_name: Map<Seq<char>, Seq<Seq<char>>>,
) -> StepView {
    StepView {
        description: raw.description@,
        instruction: raw.instruction@,
        files: pie::first_n(pie::resolved(text::views(raw.files@), by_name), 10),
        verify: verification_of(raw.verify@),
        status: StepStatus::Pending,
        tool_budget: if raw.tool_budget > 25 {
            25
        } else {
            raw.tool_budget as int
        },
        user_annotation: None,
        completed_summary: None,
    }
}

/// The step to carry out.
pub fn step_from_raw(raw: PlanStepRaw, graph: &ProjectGraph) -> (r: PlanStep)
    ensures
        r@ == step_of(raw, index::file_lists(graph.by_name@)),
{
    let resolved = graph.resolve_files(raw.files.as_slice());
    let files = first_strings(&resolved, 10);
    let verify = parse_verification(raw.verify.as_str());
    PlanStep {
        description: raw.description,
        instruction: raw.instruction,
        files,
        verify,
        status: StepStatus::Pending,
        tool_budget: if raw.tool_budget > 25 {
            25
        } else {
            raw.tool_budget
        },
        user_annotation: None,
        completed_summary: None,
    }
}

/// The hint for a symbol that an instruction names without its line.
pub open spec fn hint(s: index::SymbolView) -> Seq<char> {
    "\n[index: `"@ + s.name + "` at line "@ + number::decimal(s.line as nat) + " in "@ + s.file + "]"@
}

/// An instruction with hints for the symbols it names.
pub open spec fn enriched(instruction: Seq<char>, symbols: Seq<index::SymbolView>) -> Seq<char>
    decreases symbols.len(),
{
    if symbols.len() == 0 {
        instruction
    } else {
        let t = enriched(instruction, symbols.drop_last());
        let s = symbols.last();
        if text::contains(t, s.name) && !text::contains(t, "line "@ + number::decimal(s.line as nat)) {
            t + hint(s)
        } else {
            t
        }
    }
}

fn enrich(instruction: String, symbols: &Vec<Symbol>) -> (r: String)
    ensures
        r@ == enriched(instruction@, index::symbol_views(symbols@)),
{
    let ghost sv = index::symbol_views(symbols@);
    let ghost start = instruction@;
    let mut t = instruction;
    let mut i: usize = 0;
    assert(sv.take(0) =~= Seq::<index::SymbolView>::empty());
    while i < symbols.len()
        invariant
            i <= symbols.len(),
            sv == index::symbol_views(symbols@),
            t@ == enriched(start, sv.take(i as int)),
        decreases symbols.len() - i,
    {
        let s = &symbols[i];
        proof {
            assert(sv.take(i + 1).drop_last() =~= sv.take(i as int));
            assert(sv.take(i + 1).last() == s@);
        }
        let n = decimal_usize(s.line);
        let mut line = "line ".to_owned();
        line.append(n.as_str());
        if holds(t.as_str(), s.name.as_str()) && !holds(t.as_str(), line.as_str()) {
            let mut h = "\n[index: `".to_owned();
            h.append(s.name.as_str());
            h.append("` at line ");
            h.append(n.as_str());
            h.append(" in ");
            h.append(s.file.as_str());
            h.append("]");
            t.append(h.as_str());
        }
        i += 1;
    }
    assert(sv.take(i as int) =~= sv);
    t
}

/// Puts hints into the instructions of the steps.
pub fn enrich_step_instructions(steps: &mut Vec<PlanStep>, graph: &ProjectGraph)
    ensures
        step_views(final(steps)@) == Seq::new(
            old(steps)@.len(),
            |i: int| StepView {
                instruction: enriched(
                    old(steps)@[i].instruction@,
                    index::symbol_views(graph.symbols@),
                ),
                ..old(steps)@[i]@
            },
        ),
{
    let ghost all = steps@;
    let n: usize = steps.len();
    let mut i: usize = 0;
    while i < n
        invariant
            i <= n,
            n == steps.len(),
            n == all.len(),
            forall|k: int|
                0 <= k < i ==> (#[trigger] steps@[k])@ == (StepView {
                    instruction: enriched(
                        all[k].instruction@,
                        index::symbol_views(graph.symbols@),
                    ),
                    ..all[k]@
                }),
            forall|k: int| i <= k < n ==> #[trigger] steps@[k] == all[k],
        decreases n - i,
    {
        let mut s = steps.remove(i);
        let t = enrich(s.instruction.clone(), &graph.symbols);
        s.instruction = t;
        steps.insert(i, s);
        i += 1;
    }
    assert(step_views(steps@) =~= Seq::new(
        all.len(),
        |i: int| StepView {
            instruction: enriched(all[i].instruction@, index::symbol_views(graph.symbols@)),
            ..all[i]@
        },
    ));
}

/// The steps of a plan: those the model gave, with hints.
pub open spec fn planned(raw: Seq<PlanStepRaw>, g: ProjectGraph) -> Seq<StepView> {
    Seq::new(
        raw.len(),
        |i: int| {
            let s = step_of(raw[i], index::file_lists(g.by_name@));
            StepView {
                instruction: enriched(s.instruction, index::symbol_views(g.symbols@)),
                ..s
            }
        },
    )
}

/// The plan that the model's steps make.
pub fn plan_from_raw(
    raw: Vec<PlanStepRaw>,
    graph: &ProjectGraph,
    task: &str,
    project: &str,
    created_at: i64,
) -> (r: Result<Plan, String>)
    ensures
        match r {
            Ok(p) => {
                &&& raw@.len() > 0
                &&& step_views(p.steps@) == planned(raw@, *graph)
                &&& p.task@ == task@
                &&& p.project@ == project@
                &&& p.current == 0
                &&& p.status == PlanStatus::Pending
                &&& p.created_at == created_at
            },
            Err(e) => raw@.len() == 0 && e@ == "Model returned an empty plan"@,
        },
{
    let ghost given = raw@;
    let mut left = raw;
    let mut steps: Vec<PlanStep> = Vec::new();
    while left.len() > 0
        invariant
            steps.len() + left.len() == given.len(),
            left@ == given.skip(steps@.len() as int),
            forall|k: int|
                0 <= k < steps.len() ==> (#[trigger] steps@[k])@ == step_of(
                    given[k],
                    index::file_lists(graph.by_name@),
                ),
        decreases left.len(),
    {
        let one = left.remove(0);
        assert(one == given[steps@.len() as int]);
        steps.push(step_from_raw(one, graph));
        assert(left@ =~= given.skip(steps@.len() as int));
    }
    if steps.len() == 0 {
        return Err("Model returned an empty plan".to_owned());
    }
    enrich_step_instructions(&mut steps, graph);
    assert(step_views(steps@) =~= planned(given, *graph));
    Ok(Plan::created(task.to_owned(), steps, project.to_owned(), created_at))
}

// ── The plan as a document ───────────────────────────────────────────────────

/// How a verification reads.
pub open spec fn verification_text(v: VerificationView) -> Option<Seq<char>> {
    match v {
        VerificationView::Unchecked => None,
        VerificationView::FileChanged(p) => Some("file changed: `"@ + p + "`"@),
        VerificationView::PatternAbsent(f, p) => Some(
            "`"@ + f + "` does not contain `"@ + p + "`"@,
        ),
        VerificationView::CommandSuccess(c) => Some("`"@ + c + "` exits 0"@),
        VerificationView::BuildSuccess => Some("build succeeds"@),
    }
}

pub open spec fn step_markdown(i: int, s: StepView) -> Seq<char> {
    let head = "## Step "@ + number::decimal((i + 1) as nat) + ": "@ + s.description + "\n\n"@
        + s.instruction + "\n\n"@;
    let files = if s.files.len() == 0 {
        head
    } else {
        head + "**Files:** "@ + pieces::join(s.files, ", "@) + "\n\n"@
    };
    match verification_text(s.verify) {
        Some(v) => files + "**Verify:** "@ + v + "\n\n"@,
        None => files,
    }
}

pub open spec fn steps_markdown(s: Seq<StepView>) -> Seq<char>
    decreases s.len(),
{
    if s.len() == 0 {
        Seq::empty()
    } else {
        steps_markdown(s.drop_last()) + step_markdown(s.len() - 1, s.last())
    }
}

fn show_verification(v: &Verification) -> (r: Option<String>)
    ensures
        text::opt_text(r) == verification_text(v@),
{
    match v {
        Verification::Unchecked => None,
        Verification::FileChanged(p) => {
            let mut s = "file changed: `".to_owned();
            s.append(p.as_str());
            s.append("`");
            Some(s)
        },
        Verification::PatternAbsent { file, pattern } => {
            let mut s = "`".to_owned();
            s.append(file.as_str());
            s.append("` does not contain `");
            s.append(pattern.as_str());
            s.append("`");
            Some(s)
        },
        Verification::CommandSuccess(c) => {
            let mut s = "`".to_owned();
            s.append(c.as_str());
            s.append("` exits 0");
            Some(s)
        },
        Verification::BuildSuccess => Some("build succeeds".to_owned()),
    }
}

fn show_step(i: usize, s: &PlanStep) -> (md: String)
    requires
        i < usize::MAX,
    ensures
        md@ == step_markdown(i as int, s@),
{
    let mut md = "## Step ".to_owned();
    md.append(decimal_usize(i + 1).as_str());
    md.append(": ");
    md.append(s.description.as_str());
    md.append("\n\n");
    md.append(s.instruction.as_str());
    md.append("\n\n");
    assert(text::views(s.files@).len() == s.files@.len());
    if s.files.len() > 0 {
        md.append("**Files:** ");
        md.append(join_with(&s.files, ", ").as_str());
        md.append("\n\n");
    }
    match show_verification(&s.verify) {
        Some(v) => {
            md.append("**Verify:** ");
            md.append(v.as_str());
            md.append("\n\n");
        },
        None => {},
    }
    md
}

/// The plan as a document to read.
pub fn plan_markdown(plan: &Plan) -> (md: String)
    ensures
        md@ == "# Plan: "@ + plan.task@ + "\n\n"@ + steps_markdown(step_views(plan.steps@))
            + "---\n*Generated by PareCode — edit annotations above, then confirm in TUI to execute.*\n"@,
{
    let mut md = "# Plan: ".to_owned();
    md.append(plan.task.as_str());
    md.append("\n\n");
    let ghost sv = step_views(plan.steps@);
    let mut body = String::new();
    let mut i: usize = 0;
    assert(sv.take(0) =~= Seq::<StepView>::empty());
    while i < plan.steps.len()
        invariant
            i <= plan.steps.len(),
            sv == step_views(plan.steps@),
            body@ == steps_markdown(sv.take(i as int)),
        decreases plan.steps.len() - i,
    {
        assert(sv.take(i + 1).drop_last() =~= sv.take(i as int));
        assert(sv.take(i + 1).last() == plan.steps@[i as int]@);
        body.append(show_step(i, &plan.steps[i]).as_str());
        i += 1;
    }
    assert(sv.take(i as int) =~= sv);
    md.append(body.as_str());
    md.append(
        "---\n*Generated by PareCode — edit annotations above, then confirm in TUI to execute.*\n",
    );
    md
}


// ── What a step did ──────────────────────────────────────────────────────────

/// What is known of a file behind a step.
#[derive(Debug)]
pub struct FileState {
    /// Seconds since the last change.
    pub age_secs: u64,
    /// The content, where it can be read.
    pub content: Option<String>,
}

/// What stands before the first `(` of a head, behind a keyword.
pub open spec fn called(label: Seq<char>, t: Seq<char>, keyword: Seq<char>) -> Seq<char> {
    label + pieces::trim_start_text(pieces::before_text(t, "("@), keyword)
}

/// The word at position `n` of a head, where there is one.
pub open spec fn worded(label: Seq<char>, t: Seq<char>, n: int) -> Option<Seq<char>> {
    if pieces::words(t).len() > n {
        Some(label + pieces::words(t)[n])
    } else {
        None
    }
}

/// The symbol that a trimmed line defines, in any of the languages.
pub open spec fn defined(t: Seq<char>) -> Option<Seq<char>> {
    if text::begins(t, "pub fn "@) {
        Some(called("fn "@, t, "pub fn "@))
    } else if text::begins(t, "fn "@) {
        Some(called("fn "@, t, "fn "@))
    } else if text::begins(t, "pub struct "@) {
        worded("struct "@, t, 2)
    } else if text::begins(t, "pub enum "@) {
        worded("enum "@, t, 2)
    } else if text::begins(t, "pub trait "@) {
        worded("trait "@, t, 2)
    } else if text::begins(t, "pub type "@) {
        worded("type "@, t, 2)
    } else if text::begins(t, "impl "@) {
        Some(
            "impl "@ + text::trim(
                pieces::trim_start_text(pieces::before_text(t, "{"@), "impl "@),
            ),
        )
    } else if text::begins(t, "export function "@) {
        Some(called("fn "@, t, "export function "@))
    } else if text::begins(t, "export class "@) {
        worded("class "@, t, 2)
    } else if text::begins(t, "export interface "@) {
        worded("interface "@, t, 2)
    } else if text::begins(t, "function "@) {
        Some(called("fn "@, t, "function "@))
    } else if text::begins(t, "class "@) {
        worded("class "@, t, 1)
    } else if text::begins(t, "def "@) {
        Some(called("def "@, t, "def "@))
    } else if text::begins(t, "func "@) {
        Some(called("func "@, t, "func "@))
    } else {
        None
    }
}

fn call_name(label: &str, t: &str, keyword: &str) -> (r: Option<String>)
    requires
        keyword@.len() > 0,
    ensures
        text::opt_text(r) == Some(called(label@, t@, keyword@)),
{
    let b = before_first(t, "(");
    let b = trim_front_text(b.as_str(), keyword);
    let mut s = label.to_owned();
    s.append(b.as_str());
    Some(s)
}

fn word_name(label: &str, t: &str, n: usize) -> (r: Option<String>)
    ensures
        text::opt_text(r) == worded(label@, t@, n as int),
{
    let ws = words_of(t);
    assert(text::views(ws@).len() == ws@.len());
    if ws.len() > n {
        assert(text::views(ws@)[n as int] == ws@[n as int]@);
        let mut s = label.to_owned();
        s.append(ws[n].as_str());
        Some(s)
    } else {
        None
    }
}

fn symbol_defined(t: &str) -> (r: Option<String>)
    ensures
        text::opt_text(r) == defined(t@),
{
    proof {
        reveal_strlit("pub fn ");
        reveal_strlit("fn ");
        reveal_strlit("impl ");
        reveal_strlit("export function ");
        reveal_strlit("function ");
        reveal_strlit("def ");
        reveal_strlit("func ");
    }
    if begins_with(t, "pub fn ") {
        call_name("fn ", t, "pub fn ")
    } else if begins_with(t, "fn ") {
        call_name("fn ", t, "fn ")
    } else if begins_with(t, "pub struct ") {
        word_name("struct ", t, 2)
    } else if begins_with(t, "pub enum ") {
        word_name("enum ", t, 2)
    } else if begins_with(t, "pub trait ") {
        word_name("trait ", t, 2)
    } else if begins_with(t, "pub type ") {
        word_name("type ", t, 2)
    } else if begins_with(t, "impl ") {
        let b = before_first(t, "{");
        let b = trim_front_text(b.as_str(), "impl ");
        let b = trimmed(b.as_str());
        let mut s = "impl ".to_owned();
        s.append(b.as_str());
        Some(s)
    } else if begins_with(t, "export function ") {
        call_name("fn ", t, "export function ")
    } else if begins_with(t, "export class ") {
        word_name("class ", t, 2)
    } else if begins_with(t, "export interface ") {
        word_name("interface ", t, 2)
    } else if begins_with(t, "function ") {
        call_name("fn ", t, "function ")
    } else if begins_with(t, "class ") {
        word_name("class ", t, 1)
    } else if begins_with(t, "def ") {
        call_name("def ", t, "def ")
    } else if begins_with(t, "func ") {
        call_name("func ", t, "func ")
    } else {
        None
    }
}

/// All that the lines define.
pub open spec fn all_defined(ls: Seq<Seq<char>>) -> Seq<Seq<char>>
    decreases ls.len(),
{
    if ls.len() == 0 {
        Seq::empty()
    } else {
        match defined(text::trim(ls.last())) {
            Some(d) => all_defined(ls.drop_last()).push(d),
            None => all_defined(ls.drop_last()),
        }
    }
}

/// The name of the test that a trimmed line begins.
pub open spec fn test_name(t: Seq<char>) -> Option<Seq<char>> {
    if text::begins(t, "fn test_"@) || text::begins(t, "async fn test_"@) {
        Some(
            pieces::trim_start_text(
                pieces::trim_start_text(pieces::before_text(t, "("@), "async fn "@),
                "fn "@,
            ),
        )
    } else {
        None
    }
}

pub open spec fn test_names(ls: Seq<Seq<char>>) -> Seq<Seq<char>>
    decreases ls.len(),
{
    if ls.len() == 0 {
        Seq::empty()
    } else {
        match test_name(text::trim(ls.last())) {
            Some(d) => test_names(ls.drop_last()).push(d),
            None => test_names(ls.drop_last()),
        }
    }
}

pub open spec fn imports(t: Seq<char>) -> bool {
    text::begins(t, "use "@) || text::begins(t, "import "@) || text::begins(t, "from "@)
}

pub open spec fn import_lines(ls: Seq<Seq<char>>) -> Seq<Seq<char>>
    decreases ls.len(),
{
    if ls.len() == 0 {
        Seq::empty()
    } else if imports(text::trim(ls.last())) {
        import_lines(ls.drop_last()).push(text::trim(ls.last()))
    } else {
        import_lines(ls.drop_last())
    }
}

pub open spec fn describes(t: Seq<char>) -> bool {
    text::begins(t, "describe("@) || text::begins(t, "describe.only("@)
}

/// What a file holds, told to the next step.
pub open spec fn file_summary(path: Seq<char>, content: Seq<char>) -> Seq<char> {
    let ls = pieces::lines(content);
    let symbols = all_defined(ls);
    let imported = pie::first_n(import_lines(ls), 10);
    let tests = test_names(ls);
    let head = path + " ("@ + number::decimal(ls.len()) + " lines)"@;
    let with_symbols = if symbols.len() == 0 {
        head
    } else {
        head + "\n    symbols: ["@ + pieces::join(pie::first_n(symbols, 15), ", "@) + (
        if symbols.len() > 15 {
            ", +"@ + number::decimal((symbols.len() - 15) as nat) + " more"@
        } else {
            Seq::empty()
        }) + "]"@
    };
    let with_imports = if imported.len() == 0 {
        with_symbols
    } else {
        with_symbols + "\n    imports: ["@ + pieces::join(imported, "; "@) + "]"@
    };
    let with_tests = if exists|i: int|
        0 <= i < ls.len() && text::trim(#[trigger] ls[i]) == "#[cfg(test)]"@ {
        with_imports + "\n    note: has #[cfg(test)] mod tests ["@ + (if tests.len() == 0 {
            "(empty)"@
        } else {
            pieces::join(tests, ", "@)
        })
            + "] — to add more tests use edit_file with old_str inside the module (NOT append=true). Use exact line content and hashes from pre-loaded file."@
    } else {
        with_imports
    };
    if exists|i: int| 0 <= i < ls.len() && describes(text::trim(#[trigger] ls[i])) {
        with_tests + "\n    note: has describe() test block — add tests inside it"@
    } else {
        with_tests
    }
}

/// What the lines of a file say that the next step may need.
pub struct FileNotes {
    pub symbols: Vec<String>,
    pub tests: Vec<String>,
    pub imports: Vec<String>,
    pub has_tests: bool,
    pub has_describe: bool,
}

fn read_notes(lines: &Vec<String>) -> (r: FileNotes)
    ensures
        text::views(r.symbols@) == all_defined(text::views(lines@)),
        text::views(r.tests@) == test_names(text::views(lines@)),
        text::views(r.imports@) == import_lines(text::views(lines@)),
        r.has_tests == exists|i: int|
            0 <= i < text::views(lines@).len() && text::trim(#[trigger] text::views(lines@)[i])
                == "#[cfg(test)]"@,
        r.has_describe == exists|i: int|
            0 <= i < text::views(lines@).len() && describes(
                text::trim(#[trigger] text::views(lines@)[i]),
            ),
{
    let ghost ls = text::views(lines@);
    let mut symbols: Vec<String> = Vec::new();
    let mut tests: Vec<String> = Vec::new();
    let mut imported: Vec<String> = Vec::new();
    let mut has_tests: bool = false;
    let mut has_describe: bool = false;
    let mut i: usize = 0;
    proof {
        text::views_empty();
        assert(ls.take(0) =~= Seq::<Seq<char>>::empty());
        reveal_strlit("async fn ");
        reveal_strlit("fn ");
    }
    while i < lines.len()
        invariant
            i <= lines.len(),
            ls == text::views(lines@),
            "async fn "@.len() > 0,
            "fn "@.len() > 0,
            text::views(symbols@) == all_defined(ls.take(i as int)),
            text::views(tests@) == test_names(ls.take(i as int)),
            text::views(imported@) == import_lines(ls.take(i as int)),
            has_tests == exists|k: int|
                0 <= k < i && text::trim(#[trigger] ls[k]) == "#[cfg(test)]"@,
            has_describe == exists|k: int| 0 <= k < i && describes(text::trim(#[trigger] ls[k])),
        decreases lines.len() - i,
    {
        let t = trimmed(lines[i].as_str());
        proof {
            assert(ls.take(i + 1).drop_last() =~= ls.take(i as int));
            assert(ls.take(i + 1).last() == lines@[i as int]@);
            assert(ls[i as int] == lines@[i as int]@);
        }
        match symbol_defined(t.as_str()) {
            Some(d) => {
                symbols.push(d);
            },
            None => {},
        }
        if begins_with(t.as_str(), "fn test_") || begins_with(t.as_str(), "async fn test_") {
            let b = before_first(t.as_str(), "(");
            let b = trim_front_text(b.as_str(), "async fn ");
            let b = trim_front_text(b.as_str(), "fn ");
            tests.push(b);
        }
        if same(t.as_str(), "#[cfg(test)]") {
            has_tests = true;
        }
        if begins_with(t.as_str(), "describe(") || begins_with(t.as_str(), "describe.only(") {
            has_describe = true;
        }
        if begins_with(t.as_str(), "use ") || begins_with(t.as_str(), "import ") || begins_with(
            t.as_str(),
            "from ",
        ) {
            imported.push(t);
        }
        i += 1;
    }
    assert(ls.take(i as int) =~= ls);
    FileNotes { symbols, tests, imports: imported, has_tests, has_describe }
}

fn summarise_file(path: &str, content: &str) -> (desc: String)
    ensures
        desc@ == file_summary(path@, content@),
{
    let lines = lines_of(content);
    assert(text::views(lines@).len() == lines@.len());
    let notes = read_notes(&lines);
    let mut desc = path.to_owned();
    desc.append(" (");
    desc.append(decimal_usize(lines.len()).as_str());
    desc.append(" lines)");
    assert(text::views(notes.symbols@).len() == notes.symbols@.len());
    if notes.symbols.len() > 0 {
        let shown = first_strings(&notes.symbols, 15);
        desc.append("\n    symbols: [");
        desc.append(join_with(&shown, ", ").as_str());
        let ghost base = desc@;
        if notes.symbols.len() > 15 {
            let mut more = ", +".to_owned();
            more.append(decimal_usize(notes.symbols.len() - 15).as_str());
            more.append(" more");
            desc.append(more.as_str());
        } else {
            assert(base =~= base + Seq::<char>::empty());
        }
        desc.append("]");
    }
    let some = first_strings(&notes.imports, 10);
    assert(text::views(some@).len() == some@.len());
    if some.len() > 0 {
        desc.append("\n    imports: [");
        desc.append(join_with(&some, "; ").as_str());
        desc.append("]");
    }
    if notes.has_tests {
        assert(text::views(notes.tests@).len() == notes.tests@.len());
        let fns = if notes.tests.len() == 0 {
            "(empty)".to_owned()
        } else {
            join_with(&notes.tests, ", ")
        };
        desc.append("\n    note: has #[cfg(test)] mod tests [");
        desc.append(fns.as_str());
        desc.append(
            "] — to add more tests use edit_file with old_str inside the module (NOT append=true). Use exact line content and hashes from pre-loaded file.",
        );
    }
    if notes.has_describe {
        desc.append("\n    note: has describe() test block — add tests inside it");
    }
    desc
}

/// What is told of one file of a step; nothing of a file that is gone or
/// cannot be read.
pub open spec fn file_note(path: Seq<char>, state: Option<FileState>) -> Option<Seq<char>> {
    match state {
        Some(f) => if f.age_secs > 300 {
            Some(path + ": unchanged"@)
        } else {
            match f.content {
                Some(c) => Some(file_summary(path, c@)),
                None => None,
            }
        },
        None => None,
    }
}

/// What is told of the first `n` files.
pub open spec fn file_notes(files: Seq<Seq<char>>, states: Seq<Option<FileState>>, n: int) -> Seq<
    Seq<char>,
>
    decreases n,
{
    if n <= 0 {
        Seq::empty()
    } else {
        match file_note(files[n - 1], states[n - 1]) {
            Some(t) => file_notes(files, states, n - 1).push(t),
            None => file_notes(files, states, n - 1),
        }
    }
}

/// What a step did, told to the steps behind it.
pub open spec fn step_summary(s: StepView, states: Seq<Option<FileState>>) -> Seq<char> {
    let parts = file_notes(s.files, states, s.files.len() as int);
    if parts.len() == 0 {
        "completed: "@ + s.description
    } else {
        pieces::join(parts, "\n  "@)
    }
}

/// What a step did, from the state of each of its files: `None` for a file
/// that is not there.
pub fn summarise_completed_step(step: &PlanStep, states: &Vec<Option<FileState>>) -> (r: String)
    requires
        states.len() == step.files.len(),
    ensures
        r@ == step_summary(step@, states@),
{
    let ghost files = text::views(step.files@);
    let mut parts: Vec<String> = Vec::new();
    let mut i: usize = 0;
    proof {
        text::views_empty();
    }
    while i < step.files.len()
        invariant
            i <= step.files.len(),
            states.len() == step.files.len(),
            files == text::views(step.files@),
            text::views(parts@) == file_notes(files, states@, i as int),
        decreases step.files.len() - i,
    {
        let path = step.files[i].as_str();
        assert(files[i as int] == path@);
        match &states[i] {
            Some(f) => {
                if f.age_secs > 300 {
                    let mut s = path.to_owned();
                    s.append(": unchanged");
                    parts.push(s);
                } else {
                    match &f.content {
                        Some(c) => {
                            parts.push(summarise_file(path, c.as_str()));
                        },
                        None => {},
                    }
                }
            },
            None => {},
        }
        i += 1;
    }
    assert(text::views(parts@).len() == parts@.len());
    if parts.len() == 0 {
        let mut s = "completed: ".to_owned();
        s.append(step.description.as_str());
        s
    } else {
        join_with(&parts, "\n  ")
    }
}

// ── Whether a step succeeded ─────────────────────────────────────────────────

/// What was found when a step's verification was looked into.
#[derive(Debug)]
pub enum Evidence {
    /// Nothing had to be looked at.
    Nothing,
    /// A file's state cannot be had, and why.
    NoState(String),
    /// A file's last change is not known.
    NoTime,
    /// Seconds since a file's last change.
    Age(u64),
    /// A file cannot be read, and why.
    NoContent(String),
    Content(String),
    /// A command cannot be run, and why.
    NotRun(String),
    Ran { success: bool, code: Option<i32>, stdout: String, stderr: String },
}

/// Whether the evidence is of the kind that the verification asks for.
pub open spec fn answers(v: Verification, e: Evidence) -> bool {
    match v {
        Verification::FileChanged(_) => e is NoState || e is NoTime || e is Age,
        Verification::PatternAbsent { .. } => e is NoContent || e is Content,
        Verification::CommandSuccess(_) => e is NotRun || e is Ran,
        _ => true,
    }
}

/// How often `p` stands in `s`, one place not reaching into the next.
pub open spec fn occurrences(s: Seq<char>, p: Seq<char>) -> nat {
    if p.len() == 0 {
        s.len() + 1
    } else {
        (pieces::split_text(s, p).len() - 1) as nat
    }
}

/// What is wrong with a step, where something is.
pub open spec fn failure(v: Verification, e: Evidence) -> Option<Seq<char>> {
    match v {
        Verification::FileChanged(path) => match e {
            Evidence::NoState(why) => Some("verify: cannot stat "@ + path@ + ": "@ + why@),
            Evidence::NoTime => Some("verify: cannot get mtime for "@ + path@),
            Evidence::Age(secs) => if secs > 60 {
                Some("verify: "@ + path@ + " was not modified in the last 60s"@)
            } else {
                None
            },
            _ => None,
        },
        Verification::PatternAbsent { file, pattern } => match e {
            Evidence::NoContent(why) => Some("verify: cannot read "@ + file@ + ": "@ + why@),
            Evidence::Content(c) => if text::contains(c@, pattern@) {
                Some(
                    "verify: pattern '"@ + pattern@ + "' still found in "@ + file@ + " ("@
                        + number::decimal(occurrences(c@, pattern@)) + " occurrences)"@,
                )
            } else {
                None
            },
            _ => None,
        },
        Verification::CommandSuccess(cmd) => match e {
            Evidence::NotRun(why) => Some("verify: failed to run '"@ + cmd@ + "': "@ + why@),
            Evidence::Ran { success, code, stdout, stderr } => if success {
                None
            } else {
                Some(
                    "verify: '"@ + cmd@ + "' failed (exit "@ + number::signed(
                        match code {
                            Some(c) => c as int,
                            None => -1,
                        },
                    ) + "):\n"@ + pieces::join(
                        pie::first_n(pieces::lines(stdout@ + stderr@), 30),
                        "\n"@,
                    ),
                )
            },
            _ => None,
        },
        _ => None,
    }
}

fn count_occurrences(s: &str, p: &str) -> (n: u128)
    ensures
        n == occurrences(s@, p@),
{
    if p.is_empty() {
        count(s) as u128 + 1
    } else {
        let parts = split_at_text(s, p);
        assert(text::views(parts@).len() == parts@.len());
        parts.len() as u128 - 1
    }
}

/// A step passes by what was found alone. A command passes if and only if it
/// succeeded, whatever it printed and whatever its code is. A pattern is
/// absent if and only if no place of the content holds it. A file was changed
/// if and only if its last change is at most a minute ago. What cannot be
/// looked at does not pass, and what need not be looked at does.
pub proof fn passing_goes_by_what_was_found(v: Verification, e: Evidence)
    requires
        answers(v, e),
    ensures
        v is CommandSuccess && e is Ran ==> (failure(v, e) is None <==> e->success),
        v is CommandSuccess && e is NotRun ==> failure(v, e) is Some,
        v is PatternAbsent && e is Content ==> (failure(v, e) is None <==> forall|i: int|
            0 <= i <= e->Content_0@.len() - v->pattern@.len() ==> #[trigger] e->Content_0@.subrange(
                i,
                i + v->pattern@.len(),
            ) != v->pattern@),
        v is PatternAbsent && e is NoContent ==> failure(v, e) is Some,
        v is FileChanged && e is Age ==> (failure(v, e) is None <==> e->Age_0 <= 60),
        v is FileChanged && (e is NoState || e is NoTime) ==> failure(v, e) is Some,
        v is Unchecked || v is BuildSuccess ==> failure(v, e) is None,
{
    if v is PatternAbsent && e is Content {
        let c = e->Content_0@;
        let p = v->pattern@;
        if text::contains(c, p) {
            let i = choose|i: int| text::occurs_at(c, p, i);
            assert(c.subrange(i, i + p.len()) == p);
        } else {
            assert forall|i: int| 0 <= i <= c.len() - p.len() implies #[trigger] c.subrange(
                i,
                i + p.len(),
            ) != p by {
                assert(!text::occurs_at(c, p, i));
            }
        }
    }
}

/// Whether a step passes, by what was found: the message tells why not.
pub fn verify_step(step: &PlanStep, evidence: &Evidence) -> (r: Result<(), String>)
    requires
        answers(step.verify, *evidence),
    ensures
        match r {
            Ok(_) => failure(step.verify, *evidence) is None,
            Err(e) => failure(step.verify, *evidence) == Some(e@),
        },
        match (step.verify, *evidence) {
            (Verification::CommandSuccess(_), Evidence::Ran { success, .. }) => r is Ok == success,
            (Verification::PatternAbsent { pattern, .. }, Evidence::Content(c)) => r is Ok
                == !text::contains(c@, pattern@),
            (Verification::FileChanged(_), Evidence::Age(secs)) => r is Ok == (secs <= 60),
            (Verification::Unchecked, _) | (Verification::BuildSuccess, _) => r is Ok,
            _ => r is Err,
        },
{
    match &step.verify {
        Verification::FileChanged(path) => match evidence {
            Evidence::NoState(why) => {
                let mut s = "verify: cannot stat ".to_owned();
                s.append(path.as_str());
                s.append(": ");
                s.append(why.as_str());
                Err(s)
            },
            Evidence::NoTime => {
                let mut s = "verify: cannot get mtime for ".to_owned();
                s.append(path.as_str());
                Err(s)
            },
            Evidence::Age(secs) => {
                if *secs > 60 {
                    let mut s = "verify: ".to_owned();
                    s.append(path.as_str());
                    s.append(" was not modified in the last 60s");
                    Err(s)
                } else {
                    Ok(())
                }
            },
            _ => Ok(()),
        },
        Verification::PatternAbsent { file, pattern } => match evidence {
            Evidence::NoContent(why) => {
                let mut s = "verify: cannot read ".to_owned();
                s.append(file.as_str());
                s.append(": ");
                s.append(why.as_str());
                Err(s)
            },
            Evidence::Content(c) => {
                if holds(c.as_str(), pattern.as_str()) {
                    let n: u128 = count_occurrences(c.as_str(), pattern.as_str());
                    let mut s = "verify: pattern '".to_owned();
                    s.append(pattern.as_str());
                    s.append("' still found in ");
                    s.append(file.as_str());
                    s.append(" (");
                    s.append(number::decimal_big(n).as_str());
                    s.append(" occurrences)");
                    Err(s)
                } else {
                    Ok(())
                }
            },
            _ => Ok(()),
        },
        Verification::CommandSuccess(cmd) => match evidence {
            Evidence::NotRun(why) => {
                let mut s = "verify: failed to run '".to_owned();
                s.append(cmd.as_str());
                s.append("': ");
                s.append(why.as_str());
                Err(s)
            },
            Evidence::Ran { success, code, stdout, stderr } => {
                if *success {
                    Ok(())
                } else {
                    let mut combined = stdout.clone();
                    combined.append(stderr.as_str());
                    let all = lines_of(combined.as_str());
                    let some = first_strings(&all, 30);
                    let exit: i64 = match code {
                        Some(c) => *c as i64,
                        None => -1,
                    };
                    let mut s = "verify: '".to_owned();
                    s.append(cmd.as_str());
                    s.append("' failed (exit ");
                    s.append(signed_of(exit).as_str());
                    s.append("):\n");
                    s.append(join_with(&some, "\n").as_str());
                    Err(s)
                }
            },
            _ => Ok(()),
        },
        _ => Ok(()),
    }
}

// ── What a plan promises ─────────────────────────────────────────────────────

proof fn words_apart(p: Seq<char>, rest: Seq<char>, q: Seq<char>, k: int)
    requires
        0 <= k < p.len(),
        k < q.len(),
        p[k] != q[k],
    ensures
        text::behind(p + rest, q) is None,
        !text::begins(p + rest, q),
{
    let s = p + rest;
    if text::begins(s, q) {
        assert(s.subrange(0, q.len() as int)[k] == s[k]);
    }
}

proof fn begins_so(p: Seq<char>, rest: Seq<char>)
    ensures
        text::begins(p + rest, p),
        text::behind(p + rest, p) == Some(rest),
        (p + rest).skip(p.len() as int) == rest,
{
    assert((p + rest).subrange(0, p.len() as int) =~= p);
    assert((p + rest).skip(p.len() as int) =~= rest);
}

/// Each kind of verification is read from the word that it is written with
/// and what stands behind it.
pub proof fn verifications_are_read(a: Seq<char>, b: Seq<char>)
    requires
        !a.contains(':'),
    ensures
        verification_of("none"@) == VerificationView::Unchecked,
        verification_of(Seq::empty()) == VerificationView::Unchecked,
        verification_of("build"@) == VerificationView::BuildSuccess,
        verification_of("command:"@ + b) == VerificationView::CommandSuccess(b),
        verification_of("changed:"@ + b) == VerificationView::FileChanged(b),
        verification_of("absent:"@ + a + ":"@ + b) == VerificationView::PatternAbsent(a, b),
        verification_of("absent:"@ + a) == VerificationView::PatternAbsent(a, Seq::empty()),
{
    reveal_strlit("none");
    reveal_strlit("build");
    reveal_strlit("command:");
    reveal_strlit("changed:");
    reveal_strlit("absent:");
    reveal_strlit(":");
    assert("none"@[0] == 'n' && "build"@[0] == 'b');
    assert("command:"@[1] != "changed:"@[1] && "absent:"@[0] != "command:"@[0] && "absent:"@[0]
        != "changed:"@[0]);
    let c = "command:"@ + b;
    assert(c[0] == 'c');
    begins_so("command:"@, b);
    let d = "changed:"@ + b;
    assert(d[0] == 'c');
    begins_so("changed:"@, b);
    words_apart("changed:"@, b, "command:"@, 1);
    let rest = a + ":"@ + b;
    let e = "absent:"@ + rest;
    assert("absent:"@ + a + ":"@ + b =~= e);
    assert(e[0] == 'a');
    begins_so("absent:"@, rest);
    words_apart("absent:"@, rest, "command:"@, 0);
    words_apart("absent:"@, rest, "changed:"@, 0);
    text::find_is_first(a, ":"@);
    if text::contains(a, ":"@) {
        let i = choose|i: int| text::occurs_at(a, ":"@, i);
        assert(a.subrange(i, i + 1)[0] == a[i]);
    }
    pieces::split_at_sign(a, ":"@, b);
    let f = "absent:"@ + a;
    assert(f[0] == 'a');
    begins_so("absent:"@, a);
    words_apart("absent:"@, a, "command:"@, 0);
    words_apart("absent:"@, a, "changed:"@, 0);
}

/// A step keeps what the model said of it. It gets the first ten of the files
/// that are meant, and at most twenty-five tool calls.
pub proof fn step_is_bounded(raw: PlanStepRaw, by_name: Map<Seq<char>, Seq<Seq<char>>>)
    ensures
        ({
            let s = step_of(raw, by_name);
            let all = pie::resolved(text::views(raw.files@), by_name);
            &&& s.description == raw.description@
            &&& s.instruction == raw.instruction@
            &&& s.files.len() <= 10
            &&& all.len() <= 10 ==> s.files == all
            &&& all.len() > 10 ==> s.files.len() == 10 && s.files == all.take(10)
            &&& s.tool_budget <= 25
            &&& raw.tool_budget <= 25 ==> s.tool_budget == raw.tool_budget
            &&& raw.tool_budget > 25 ==> s.tool_budget == 25
            &&& s.status == StepStatus::Pending
            &&& s.user_annotation is None
            &&& s.completed_summary is None
        }),
{
}

/// Files cost what each of them costs: a quarter of its characters where it
/// can be read, and a thousand where it cannot.
pub proof fn file_costs_add_up(a: Seq<Option<usize>>, b: Seq<Option<usize>>, n: usize)
    ensures
        file_tokens(Seq::empty()) == 0,
        file_tokens(seq![Some(n)]) == n / 4,
        file_tokens(seq![None::<usize>]) == 1000,
        file_tokens(a + b) == file_tokens(a) + file_tokens(b),
    decreases b.len(),
{
    reveal_with_fuel(file_tokens, 2);
    assert(seq![Some(n)].drop_last() =~= Seq::empty());
    assert(seq![None::<usize>].drop_last() =~= Seq::empty());
    if b.len() == 0 {
        assert(a + b =~= a);
    } else {
        file_costs_add_up(a, b.drop_last(), n);
        assert((a + b).drop_last() =~= a + b.drop_last());
    }
}

/// Each step of a plan costs five hundred, a quarter of the characters of its
/// instruction, and its files.
pub proof fn step_costs_add_up(p: Plan, sizes: Seq<Vec<Option<usize>>>, n: int)
    requires
        0 <= n,
    ensures
        plan_tokens(p, sizes, 0) == 0,
        plan_tokens(p, sizes, n + 1) == plan_tokens(p, sizes, n) + 500
            + p.steps@[n].instruction@.len() / 4 + file_tokens(sizes[n]@),
{
}

/// Hints are put behind an instruction, which itself stays. A symbol gets one
/// if and only if its name is there and its line is not.
pub proof fn hints_follow_the_instruction(
    instruction: Seq<char>,
    a: Seq<index::SymbolView>,
    s: index::SymbolView,
)
    ensures
        enriched(instruction, Seq::empty()) == instruction,
        text::begins(enriched(instruction, a), instruction),
        ({
            let t = enriched(instruction, a);
            let named = text::contains(t, s.name) && !text::contains(
                t,
                "line "@ + number::decimal(s.line as nat),
            );
            &&& named ==> enriched(instruction, a.push(s)) == t + "\n[index: `"@ + s.name
                + "` at line "@ + number::decimal(s.line as nat) + " in "@ + s.file + "]"@
            &&& !named ==> enriched(instruction, a.push(s)) == t
        }),
    decreases a.len(),
{
    assert(a.push(s).drop_last() =~= a);
    let t = enriched(instruction, a);
    assert(t + hint(s) =~= t + "\n[index: `"@ + s.name + "` at line "@ + number::decimal(
        s.line as nat,
    ) + " in "@ + s.file + "]"@);
    if a.len() > 0 {
        let b = a.drop_last();
        hints_follow_the_instruction(instruction, b, a.last());
        assert(b.push(a.last()) =~= a);
        let u = enriched(instruction, b);
        let n = instruction.len() as int;
        assert(u.subrange(0, n) == instruction);
        assert((u + hint(a.last())).subrange(0, n) =~= u.subrange(0, n));
    } else {
        assert(t.subrange(0, t.len() as int) =~= t);
    }
}

/// The notes of a file are those of its lines, in their order.
pub proof fn notes_are_of_the_lines(ls: Seq<Seq<char>>)
    ensures
        all_defined(ls) == ls.map_values(|l: Seq<char>| defined(text::trim(l))).filter(
            |d: Option<Seq<char>>| d is Some,
        ).map_values(|d: Option<Seq<char>>| d->0),
        test_names(ls) == ls.map_values(|l: Seq<char>| test_name(text::trim(l))).filter(
            |d: Option<Seq<char>>| d is Some,
        ).map_values(|d: Option<Seq<char>>| d->0),
        import_lines(ls) == ls.map_values(|l: Seq<char>| text::trim(l)).filter(
            |t: Seq<char>|
                text::begins(t, "use "@) || text::begins(t, "import "@) || text::begins(t, "from "@),
        ),
    decreases ls.len(),
{
    reveal(Seq::filter);
    let f = |l: Seq<char>| defined(text::trim(l));
    let g = |l: Seq<char>| test_name(text::trim(l));
    let h = |l: Seq<char>| text::trim(l);
    let some = |d: Option<Seq<char>>| d is Some;
    let got = |d: Option<Seq<char>>| d->0;
    if ls.len() > 0 {
        let t = ls.drop_last();
        notes_are_of_the_lines(t);
        assert(ls.map_values(f).drop_last() =~= t.map_values(f));
        assert(ls.map_values(g).drop_last() =~= t.map_values(g));
        assert(ls.map_values(h).drop_last() =~= t.map_values(h));
        let a = t.map_values(f).filter(some);
        let b = t.map_values(g).filter(some);
        let x = f(ls.last());
        let y = g(ls.last());
        assert(a.push(x).map_values(got) =~= a.map_values(got).push(got(x)));
        assert(b.push(y).map_values(got) =~= b.map_values(got).push(got(y)));
    } else {
        assert(ls.map_values(f) =~= Seq::empty());
        assert(ls.map_values(g) =~= Seq::empty());
        assert(ls.map_values(h) =~= Seq::empty());
        assert(ls.map_values(f).filter(some).map_values(got) =~= Seq::empty());
        assert(ls.map_values(g).filter(some).map_values(got) =~= Seq::empty());
    }
}

proof fn head_name(k: Seq<char>, name: Seq<char>, rest: Seq<char>)
    requires
        k.len() > 0,
        !k.contains('('),
        !name.contains('('),
        !text::begins(name, k),
    ensures
        pieces::trim_start_text(pieces::before_text(k + name + "("@ + rest, "("@), k) == name,
{
    reveal_strlit("(");
    let a = k + name;
    text::find_is_first(a, "("@);
    if text::contains(a, "("@) {
        let i = choose|i: int| text::occurs_at(a, "("@, i);
        assert(a.subrange(i, i + 1)[0] == a[i]);
        if i < k.len() {
            assert(k[i] == '(');
        } else {
            assert(name[i - k.len()] == '(');
        }
    }
    pieces::split_at_sign(a, "("@, rest);
    begins_so(k, name);
    reveal_with_fuel(pieces::trim_start_text, 2);
}

/// The head of a function gives its name.
pub proof fn functions_are_noted(name: Seq<char>, rest: Seq<char>)
    requires
        !name.contains('('),
        !name.contains(' '),
    ensures
        defined("pub fn "@ + name + "("@ + rest) == Some("fn "@ + name),
        defined("fn "@ + name + "("@ + rest) == Some("fn "@ + name),
        defined("export function "@ + name + "("@ + rest) == Some("fn "@ + name),
        defined("function "@ + name + "("@ + rest) == Some("fn "@ + name),
        defined("def "@ + name + "("@ + rest) == Some("def "@ + name),
{
    reveal_strlit("pub fn ");
    reveal_strlit("fn ");
    reveal_strlit("export function ");
    reveal_strlit("function ");
    reveal_strlit("def ");
    reveal_strlit("pub struct ");
    reveal_strlit("pub enum ");
    reveal_strlit("pub trait ");
    reveal_strlit("pub type ");
    reveal_strlit("impl ");
    reveal_strlit("export class ");
    reveal_strlit("export interface ");
    reveal_strlit("class ");
    reveal_strlit("(");
    let r = name + "("@ + rest;
    spaced(name, "pub fn "@, 6);
    spaced(name, "fn "@, 2);
    spaced(name, "export function "@, 15);
    spaced(name, "function "@, 8);
    spaced(name, "def "@, 3);
    head_name("pub fn "@, name, rest);
    head_name("fn "@, name, rest);
    head_name("export function "@, name, rest);
    head_name("function "@, name, rest);
    head_name("def "@, name, rest);
    begins_so("pub fn "@, r);
    assert("pub fn "@ + name + "("@ + rest =~= "pub fn "@ + r);
    begins_so("fn "@, r);
    assert("fn "@ + name + "("@ + rest =~= "fn "@ + r);
    words_apart("fn "@, r, "pub fn "@, 0);
    let e = "export function "@;
    begins_so(e, r);
    assert(e + name + "("@ + rest =~= e + r);
    words_apart(e, r, "pub fn "@, 0);
    words_apart(e, r, "fn "@, 0);
    words_apart(e, r, "pub struct "@, 0);
    words_apart(e, r, "pub enum "@, 0);
    words_apart(e, r, "pub trait "@, 0);
    words_apart(e, r, "pub type "@, 0);
    words_apart(e, r, "impl "@, 0);
    let f = "function "@;
    begins_so(f, r);
    assert(f + name + "("@ + rest =~= f + r);
    words_apart(f, r, "pub fn "@, 0);
    words_apart(f, r, "fn "@, 1);
    words_apart(f, r, "pub struct "@, 0);
    words_apart(f, r, "pub enum "@, 0);
    words_apart(f, r, "pub trait "@, 0);
    words_apart(f, r, "pub type "@, 0);
    words_apart(f, r, "impl "@, 0);
    words_apart(f, r, "export function "@, 0);
    words_apart(f, r, "export class "@, 0);
    words_apart(f, r, "export interface "@, 0);
    let d = "def "@;
    begins_so(d, r);
    assert(d + name + "("@ + rest =~= d + r);
    words_apart(d, r, "pub fn "@, 0);
    words_apart(d, r, "fn "@, 0);
    words_apart(d, r, "pub struct "@, 0);
    words_apart(d, r, "pub enum "@, 0);
    words_apart(d, r, "pub trait "@, 0);
    words_apart(d, r, "pub type "@, 0);
    words_apart(d, r, "impl "@, 0);
    words_apart(d, r, "export function "@, 0);
    words_apart(d, r, "export class "@, 0);
    words_apart(d, r, "export interface "@, 0);
    words_apart(d, r, "function "@, 0);
    words_apart(d, r, "class "@, 0);
}

proof fn spaced(name: Seq<char>, k: Seq<char>, i: int)
    requires
        0 <= i < k.len(),
        k[i] == ' ',
        !name.contains(' '),
    ensures
        !text::begins(name, k),
        forall|j: int| 0 <= j < k.len() && k[j] == '(' ==> k.contains('('),
{
    if text::begins(name, k) {
        assert(name.subrange(0, k.len() as int)[i] == name[i]);
    }
}

/// The head of a type gives what it is and its name.
pub proof fn types_are_noted(name: Seq<char>, tail: Seq<char>)
    requires
        name.len() > 0,
        forall|i: int| 0 <= i < name.len() ==> !text::is_white(#[trigger] name[i]),
        tail.len() == 0 || text::is_white(tail[0]),
    ensures
        defined("pub struct "@ + name + tail) == Some("struct "@ + name),
        defined("pub enum "@ + name + tail) == Some("enum "@ + name),
        defined("pub trait "@ + name + tail) == Some("trait "@ + name),
        defined("pub type "@ + name + tail) == Some("type "@ + name),
{
    reveal_strlit("pub fn ");
    reveal_strlit("fn ");
    reveal_strlit("pub struct ");
    reveal_strlit("pub enum ");
    reveal_strlit("pub trait ");
    reveal_strlit("pub type ");
    reveal_strlit("pub");
    reveal_strlit("struct");
    reveal_strlit("enum");
    reveal_strlit("trait");
    reveal_strlit("type");
    let r = name + tail;
    two_words("struct"@, name, tail);
    two_words("enum"@, name, tail);
    two_words("trait"@, name, tail);
    two_words("type"@, name, tail);
    let a = "pub struct "@;
    assert(a + name + tail =~= a + r);
    assert(a + name + tail =~= "pub"@ + seq![' '] + "struct"@ + seq![' '] + r);
    begins_so(a, r);
    words_apart(a, r, "pub fn "@, 4);
    words_apart(a, r, "fn "@, 0);
    let b = "pub enum "@;
    assert(b + name + tail =~= b + r);
    assert(b + name + tail =~= "pub"@ + seq![' '] + "enum"@ + seq![' '] + r);
    begins_so(b, r);
    words_apart(b, r, "pub fn "@, 4);
    words_apart(b, r, "fn "@, 0);
    words_apart(b, r, "pub struct "@, 4);
    let c = "pub trait "@;
    assert(c + name + tail =~= c + r);
    assert(c + name + tail =~= "pub"@ + seq![' '] + "trait"@ + seq![' '] + r);
    begins_so(c, r);
    words_apart(c, r, "pub fn "@, 4);
    words_apart(c, r, "fn "@, 0);
    words_apart(c, r, "pub struct "@, 4);
    words_apart(c, r, "pub enum "@, 4);
    let d = "pub type "@;
    assert(d + name + tail =~= d + r);
    assert(d + name + tail =~= "pub"@ + seq![' '] + "type"@ + seq![' '] + r);
    begins_so(d, r);
    words_apart(d, r, "pub fn "@, 4);
    words_apart(d, r, "fn "@, 0);
    words_apart(d, r, "pub struct "@, 4);
    words_apart(d, r, "pub enum "@, 4);
    words_apart(d, r, "pub trait "@, 5);
}

proof fn two_words(k: Seq<char>, name: Seq<char>, tail: Seq<char>)
    requires
        k == "struct"@ || k == "enum"@ || k == "trait"@ || k == "type"@,
        name.len() > 0,
        forall|i: int| 0 <= i < name.len() ==> !text::is_white(#[trigger] name[i]),
        tail.len() == 0 || text::is_white(tail[0]),
    ensures
        pieces::words("pub"@ + seq![' '] + k + seq![' '] + (name + tail)).len() > 2,
        pieces::words("pub"@ + seq![' '] + k + seq![' '] + (name + tail))[2] == name,
{
    reveal_strlit("pub");
    reveal_strlit("struct");
    reveal_strlit("enum");
    reveal_strlit("trait");
    reveal_strlit("type");
    let none = Seq::<char>::empty();
    let one = seq![' '];
    let c = one + name + tail;
    let b = one + k + c;
    let a = none + "pub"@ + b;
    assert(a =~= "pub"@ + seq![' '] + k + seq![' '] + (name + tail));
    pieces::word_in_front(one, name, tail);
    pieces::word_in_front(one, k, c);
    pieces::word_in_front(none, "pub"@, b);
    assert(pieces::words(a)[2] == pieces::words(b)[1]);
    assert(pieces::words(b)[1] == pieces::words(c)[0]);
}

/// A step that changed nothing lately tells so of each file; a file that was
/// changed in the last five minutes is summed up where it can be read, and a
/// file that is gone is passed over.
pub proof fn files_are_told_of(path: Seq<char>, f: FileState)
    ensures
        file_note(path, None) is None,
        f.age_secs > 300 ==> file_note(path, Some(f)) == Some(path + ": unchanged"@),
        f.age_secs <= 300 ==> (f.content matches Some(c) ==> file_note(path, Some(f)) == Some(
            file_summary(path, c@),
        )),
        f.age_secs <= 300 && f.content is None ==> file_note(path, Some(f)) is None,
{
}

/// What is told of a step is what is told of its files, one behind the other,
/// and where nothing is, that it was completed.
pub proof fn step_is_told_by_its_files(s: StepView, states: Seq<Option<FileState>>)
    requires
        states.len() == s.files.len(),
    ensures
        ({
            let told = Seq::new(s.files.len(), |i: int| file_note(s.files[i], states[i])).filter(
                |t: Option<Seq<char>>| t is Some,
            ).map_values(|t: Option<Seq<char>>| t->0);
            step_summary(s, states) == if told.len() == 0 {
                "completed: "@ + s.description
            } else {
                pieces::join(told, "\n  "@)
            }
        }),
{
    notes_of_files(s.files, states, s.files.len() as int);
}

proof fn notes_of_files(files: Seq<Seq<char>>, states: Seq<Option<FileState>>, n: int)
    requires
        0 <= n,
    ensures
        file_notes(files, states, n) == Seq::new(
            n as nat,
            |i: int| file_note(files[i], states[i]),
        ).filter(|t: Option<Seq<char>>| t is Some).map_values(|t: Option<Seq<char>>| t->0),
    decreases n,
{
    reveal(Seq::filter);
    let some = |t: Option<Seq<char>>| t is Some;
    let got = |t: Option<Seq<char>>| t->0;
    let all = Seq::new(n as nat, |i: int| file_note(files[i], states[i]));
    if n > 0 {
        notes_of_files(files, states, n - 1);
        assert(all.drop_last() =~= Seq::new(
            (n - 1) as nat,
            |i: int| file_note(files[i], states[i]),
        ));
        let a = all.drop_last().filter(some);
        assert(a.push(all.last()).map_values(got) =~= a.map_values(got).push(got(all.last())));
    } else {
        assert(all =~= Seq::empty());
        assert(all.filter(some).map_values(got) =~= Seq::empty());
    }
}

/// A pattern is counted as often as it stands in a text, one place behind the
/// other; where it does not stand, not at all.
pub proof fn occurrences_are_counted(a: Seq<char>, p: Seq<char>, b: Seq<char>, s: Seq<char>)
    requires
        p.len() > 0,
        !a.contains(p[0]),
    ensures
        occurrences(a + p + b, p) == 1 + occurrences(b, p),
        occurrences(a, p) == 0,
        occurrences(s, p) > 0 <==> text::contains(s, p),
{
    text::found_behind(a, p, b);
    text::found_nowhere(a, p);
    pieces::split_joins(b, p);
    pieces::split_joins(s, p);
    text::find_is_first(s, p);
    let t = a + p + b;
    assert(pieces::split_text(t, p) == seq![a] + pieces::split_text(b, p));
    assert(pieces::split_text(a, p) =~= seq![a]);
    if let Some(i) = text::find(s, p) {
        pieces::split_joins(s.skip(i + p.len()), p);
    }
}

/// Counts are told in thousands from a thousand on, rounded down.
pub proof fn thousands_are_told(n: nat, k: nat)
    ensures
        n < 1000 ==> thousands(n) == number::decimal(n),
        n >= 1000 && 1000 * k <= n < 1000 * (k + 1) ==> thousands(n) == number::decimal(k) + "k"@,
{
}

/// Each step that the model gave is a step of the plan, in its place, and its
/// instruction goes on with hints.
pub proof fn every_step_is_planned(raw: Seq<PlanStepRaw>, g: ProjectGraph, i: int)
    requires
        0 <= i < raw.len(),
    ensures
        planned(raw, g).len() == raw.len(),
        planned(raw, g)[i].description == raw[i].description@,
        planned(raw, g)[i].status == StepStatus::Pending,
        planned(raw, g)[i].verify == verification_of(raw[i].verify@),
        planned(raw, g)[i].files == step_of(raw[i], index::file_lists(g.by_name@)).files,
        planned(raw, g)[i].tool_budget <= 25,
        text::begins(planned(raw, g)[i].instruction, raw[i].instruction@),
        planned(raw, g) == planned(raw.take(i), g) + planned(raw.skip(i), g),
{
    let symbols = index::symbol_views(g.symbols@);
    hints_follow_the_instruction(raw[i].instruction@, symbols, arbitrary());
    assert(planned(raw, g) =~= planned(raw.take(i), g) + planned(raw.skip(i), g));
}

} // verus!
