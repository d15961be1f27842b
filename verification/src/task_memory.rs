//! What earlier tasks did, and which of them bear on the next.

use crate::clock::now;
use crate::number;
use crate::number::{byte_len, decimal_of, signed_of};
use crate::order;
use crate::order::sort_by;
use crate::pieces;
use crate::pieces::{join_with, lines_of};
use crate::text;
use crate::text::{begins_with, count, cut, listed, rfind_set, take_chars, trim_back_by, trimmed, CharSet};
use vstd::prelude::*;

verus! {

broadcast use crate::text::views_push;

pub const TASK_MEMORY_PATH: &'static str = ".parecode/task_memory.jsonl";

/// How many records are looked through.
pub const SCAN_LIMIT: usize = 200;

/// A task that is done.
#[derive(Debug)]
pub struct TaskRecord {
    pub id: String,
    /// Unix time at which it ended.
    pub timestamp: i64,
    /// The start of what the user asked.
    pub task: String,
    /// "solved", "partial" or "failed".
    pub outcome: String,
    /// The files that the agent wrote.
    pub files_modified: Vec<String>,
    pub summary: String,
    pub tokens_used: u32,
    /// All files of the context.
    pub files_in_context: Vec<String>,
}

/// What a `TaskRecord` says.
#[verifier::ext_equal]
pub struct TaskView {
    pub id: Seq<char>,
    pub timestamp: int,
    pub task: Seq<char>,
    pub outcome: Seq<char>,
    pub files_modified: Seq<Seq<char>>,
    pub summary: Seq<char>,
    pub tokens_used: u32,
    pub files_in_context: Seq<Seq<char>>,
}

impl View for TaskRecord {
    type V = TaskView;

    open spec fn view(&self) -> TaskView {
        TaskView {
            id: self.id@,
            timestamp: self.timestamp as int,
            task: self.task@,
            outcome: self.outcome@,
            files_modified: text::views(self.files_modified@),
            summary: self.summary@,
            tokens_used: self.tokens_used,
            files_in_context: text::views(self.files_in_context@),
        }
    }
}

pub open spec fn task_views(v: Seq<TaskRecord>) -> Seq<TaskView> {
    Seq::new(v.len(), |i: int| v[i]@)
}

// ── Ages ─────────────────────────────────────────────────────────────────────

/// The seconds from one time to another, none where it lies ahead.
pub open spec fn seconds(from: int, to: int) -> nat {
    if to > from {
        (to - from) as nat
    } else {
        0
    }
}

/// The whole days from one time to another, within 32 bits.
pub open spec fn days(from: int, to: int) -> nat {
    (seconds(from, to) / 86400) % 0x1_0000_0000
}

pub open spec fn age(secs: nat) -> Seq<char> {
    if secs < 120 {
        "just now"@
    } else if secs < 3600 {
        number::decimal(secs / 60) + "m ago"@
    } else if secs < 86400 {
        number::decimal(secs / 3600) + "h ago"@
    } else {
        number::decimal(secs / 86400) + "d ago"@
    }
}

fn seconds_since(from: i64, to: i64) -> (r: u64)
    ensures
        r == seconds(from as int, to as int),
{
    if to > from {
        (to as i128 - from as i128) as u64
    } else {
        0
    }
}

impl TaskRecord {
    /// A record of a task that ended at a time.
    pub fn new_at(
        ts: i64,
        task: &str,
        outcome: &str,
        files_modified: Vec<String>,
        summary: &str,
        tokens_used: u32,
        files_in_context: Vec<String>,
    ) -> (r: Self)
        ensures
            r@ == (TaskView {
                id: number::signed(ts as int),
                timestamp: ts as int,
                task: text::first_chars(task@, 200),
                outcome: outcome@,
                files_modified: text::views(files_modified@),
                summary: text::first_chars(summary@, 200),
                tokens_used,
                files_in_context: text::views(files_in_context@),
            }),
    {
        TaskRecord {
            id: signed_of(ts),
            timestamp: ts,
            task: take_chars(task, 200),
            outcome: outcome.to_owned(),
            files_modified,
            summary: take_chars(summary, 200),
            tokens_used,
            files_in_context,
        }
    }

    /// A record of a task that has just ended.
    pub fn new(
        task: &str,
        outcome: &str,
        files_modified: Vec<String>,
        summary: &str,
        tokens_used: u32,
        files_in_context: Vec<String>,
    ) -> (r: Self)
        ensures
            r@ == (TaskView {
                id: number::signed(r.timestamp as int),
                timestamp: r.timestamp as int,
                task: text::first_chars(task@, 200),
                outcome: outcome@,
                files_modified: text::views(files_modified@),
                summary: text::first_chars(summary@, 200),
                tokens_used,
                files_in_context: text::views(files_in_context@),
            }),
    {
        TaskRecord::new_at(
            now(),
            task,
            outcome,
            files_modified,
            summary,
            tokens_used,
            files_in_context,
        )
    }

    /// How many whole days ago a task was at a time.
    pub fn days_ago_at(&self, now: i64) -> (r: u32)
        ensures
            r == days(self.timestamp as int, now as int),
    {
        ((seconds_since(self.timestamp, now) / 86400) % 0x1_0000_0000) as u32
    }

    /// How many whole days ago a task was.
    pub fn days_ago(&self) -> (r: u32)
        ensures
            exists|t: int| #[trigger] days(self.timestamp as int, t) == r,
    {
        let t: i64 = now();
        self.days_ago_at(t)
    }

    /// How long ago a task was at a time.
    pub fn age_str_at(&self, now: i64) -> (r: String)
        ensures
            r@ == age(seconds(self.timestamp as int, now as int)),
    {
        let secs: u64 = seconds_since(self.timestamp, now);
        if secs < 120 {
            "just now".to_owned()
        } else if secs < 3600 {
            let mut s = decimal_of(secs / 60);
            s.append("m ago");
            s
        } else if secs < 86400 {
            let mut s = decimal_of(secs / 3600);
            s.append("h ago");
            s
        } else {
            let mut s = decimal_of(secs / 86400);
            s.append("d ago");
            s
        }
    }

    /// How long ago a task was.
    pub fn age_str(&self) -> (r: String)
        ensures
            exists|secs: nat| #[trigger] age(secs) == r@,
    {
        let t: i64 = now();
        self.age_str_at(t)
    }
}

// ── The newest ───────────────────────────────────────────────────────────────

pub open spec fn newer() -> spec_fn(TaskView, TaskView) -> bool {
    |a: TaskView, b: TaskView| a.timestamp >= b.timestamp
}

/// The first `n` of a list, or all of it.
pub open spec fn front<T>(s: Seq<T>, n: int) -> Seq<T> {
    if s.len() <= n {
        s
    } else {
        s.take(n)
    }
}

/// The newest records, newest first; those of one time in the order that
/// they had.
pub open spec fn recent(rs: Seq<TaskView>, limit: int) -> Seq<TaskView> {
    front(order::sorted_by(rs, newer()), limit)
}

fn keep_front(records: &mut Vec<TaskRecord>, n: usize)
    ensures
        task_views(final(records)@) == front(task_views(old(records)@), n as int),
{
    let ghost before = task_views(records@);
    if records.len() > n {
        records.truncate(n);
    }
    assert(task_views(records@) =~= front(before, n as int));
}

/// The newest records, newest first.
pub fn load_recent(records: Vec<TaskRecord>, limit: usize) -> (r: Vec<TaskRecord>)
    ensures
        task_views(r@) == recent(task_views(records@), limit as int),
{
    let mut rs = records;
    let ghost before = rs@;
    let le = |a: &TaskRecord, b: &TaskRecord| -> (r: bool)
        ensures r == (a.timestamp >= b.timestamp)
        {
            a.timestamp >= b.timestamp
        };
    let ghost rel = |a: TaskRecord, b: TaskRecord| a.timestamp >= b.timestamp;
    sort_by(&mut rs, le, Ghost(rel));
    proof {
        let f = |t: TaskRecord| t@;
        order::sorted_map(before, |t: TaskRecord| true, f, rel, newer());
        assert(before.map_values(f) =~= task_views(before));
        assert(rs@.map_values(f) =~= task_views(rs@));
    }
    keep_front(&mut rs, limit);
    rs
}

// ── Those that bear on a task ────────────────────────────────────────────────

/// How many of the files a task wrote are among the candidates.
pub open spec fn overlap(files: Seq<Seq<char>>, candidates: Seq<Seq<char>>) -> nat
    decreases files.len(),
{
    if files.len() == 0 {
        0
    } else {
        overlap(files.drop_last(), candidates) + if candidates.contains(files.last()) {
            1nat
        } else {
            0
        }
    }
}

fn count_overlap(r: &TaskRecord, candidates: &Vec<String>) -> (n: usize)
    ensures
        n == overlap(r@.files_modified, text::views(candidates@)),
{
    let ghost fv = text::views(r.files_modified@);
    let mut n: usize = 0;
    let mut i: usize = 0;
    assert(fv.take(0) =~= Seq::<Seq<char>>::empty());
    while i < r.files_modified.len()
        invariant
            i <= r.files_modified.len(),
            n <= i,
            fv == text::views(r.files_modified@),
            n == overlap(fv.take(i as int), text::views(candidates@)),
        decreases r.files_modified.len() - i,
    {
        assert(fv.take(i + 1).drop_last() =~= fv.take(i as int));
        assert(fv.take(i + 1).last() == r.files_modified@[i as int]@);
        if listed(r.files_modified[i].as_str(), candidates) {
            n += 1;
        }
        i += 1;
    }
    assert(fv.take(i as int) =~= fv);
    n
}

/// Whether `a` scores at least as high as `b`. The score of a task is its
/// overlap over one more than the days since.
pub open spec fn scores(
    candidates: Seq<Seq<char>>,
    now: int,
) -> spec_fn(TaskView, TaskView) -> bool {
    |a: TaskView, b: TaskView|
        overlap(a.files_modified, candidates) * (days(b.timestamp, now) + 1) >= overlap(
            b.files_modified,
            candidates,
        ) * (days(a.timestamp, now) + 1)
}

/// The records that share a file with the candidates.
pub open spec fn sharing(rs: Seq<TaskView>, candidates: Seq<Seq<char>>) -> Seq<TaskView>
    decreases rs.len(),
{
    if rs.len() == 0 {
        Seq::empty()
    } else if overlap(rs.last().files_modified, candidates) > 0 {
        sharing(rs.drop_last(), candidates).push(rs.last())
    } else {
        sharing(rs.drop_last(), candidates)
    }
}

/// The records that bear most on the candidates, or the newest where there
/// are no candidates.
pub open spec fn relevant(
    rs: Seq<TaskView>,
    candidates: Seq<Seq<char>>,
    top: int,
    now: int,
) -> Seq<TaskView> {
    if candidates.len() == 0 {
        recent(rs, top)
    } else {
        front(
            order::sorted_by(
                sharing(recent(rs, SCAN_LIMIT as int), candidates),
                scores(candidates, now),
            ),
            top,
        )
    }
}

fn clone_record(r: &TaskRecord) -> (c: TaskRecord)
    ensures
        c@ == r@,
{
    TaskRecord {
        id: r.id.clone(),
        timestamp: r.timestamp,
        task: r.task.clone(),
        outcome: r.outcome.clone(),
        files_modified: crate::config::clone_texts(&r.files_modified),
        summary: r.summary.clone(),
        tokens_used: r.tokens_used,
        files_in_context: crate::config::clone_texts(&r.files_in_context),
    }
}

impl Clone for TaskRecord {
    fn clone(&self) -> (r: Self)
        ensures
            r@ == self@,
    {
        clone_record(self)
    }
}

fn higher(a: &TaskRecord, b: &TaskRecord, candidates: &Vec<String>, now: i64) -> (r: bool)
    ensures
        r == scores(text::views(candidates@), now as int)(a@, b@),
{
    let x: u128 = count_overlap(a, candidates) as u128;
    let y: u128 = count_overlap(b, candidates) as u128;
    let p: u128 = a.days_ago_at(now) as u128 + 1;
    let q: u128 = b.days_ago_at(now) as u128 + 1;
    assert(x * q <= u128::MAX && y * p <= u128::MAX) by (nonlinear_arith)
        requires
            x <= 0xffff_ffff_ffff_ffff,
            y <= 0xffff_ffff_ffff_ffff,
            p <= 0x1_0000_0000,
            q <= 0x1_0000_0000,
    ;
    x * q >= y * p
}

/// The records that bear most on the candidates at a time.
pub fn find_relevant_at(
    records: Vec<TaskRecord>,
    candidate_files: &Vec<String>,
    top_n: usize,
    now: i64,
) -> (r: Vec<TaskRecord>)
    ensures
        task_views(r@) == relevant(
            task_views(records@),
            text::views(candidate_files@),
            top_n as int,
            now as int,
        ),
{
    let ghost cv = text::views(candidate_files@);
    assert(cv.len() == candidate_files@.len());
    if candidate_files.len() == 0 {
        return load_recent(records, top_n);
    }
    let rs = load_recent(records, SCAN_LIMIT);
    let ghost rv = task_views(rs@);
    let mut found: Vec<TaskRecord> = Vec::new();
    let mut i: usize = 0;
    assert(rv.take(0) =~= Seq::<TaskView>::empty());
    assert(task_views(found@) =~= Seq::<TaskView>::empty());
    while i < rs.len()
        invariant
            i <= rs.len(),
            rv == task_views(rs@),
            cv == text::views(candidate_files@),
            task_views(found@) == sharing(rv.take(i as int), cv),
        decreases rs.len() - i,
    {
        assert(rv.take(i + 1).drop_last() =~= rv.take(i as int));
        assert(rv.take(i + 1).last() == rs@[i as int]@);
        if count_overlap(&rs[i], candidate_files) > 0 {
            let ghost before = task_views(found@);
            found.push(rs[i].clone());
            assert(task_views(found@) =~= before.push(rs@[i as int]@));
        }
        i += 1;
    }
    assert(rv.take(i as int) =~= rv);
    let ghost before = found@;
    let le = |a: &TaskRecord, b: &TaskRecord| -> (r: bool)
        ensures r == scores(text::views(candidate_files@), now as int)(a@, b@)
        {
            higher(a, b, candidate_files, now)
        };
    let ghost rel = |a: TaskRecord, b: TaskRecord| scores(cv, now as int)(a@, b@);
    sort_by(&mut found, le, Ghost(rel));
    proof {
        let f = |t: TaskRecord| t@;
        order::sorted_map(before, |t: TaskRecord| true, f, rel, scores(cv, now as int));
        assert(before.map_values(f) =~= task_views(before));
        assert(found@.map_values(f) =~= task_views(found@));
    }
    keep_front(&mut found, top_n);
    found
}

/// The records that bear most on the candidates.
pub fn find_relevant(
    records: Vec<TaskRecord>,
    candidate_files: &Vec<String>,
    top_n: usize,
) -> (r: Vec<TaskRecord>)
    ensures
        exists|t: int|
            task_views(r@) == #[trigger] relevant(
                task_views(records@),
                text::views(candidate_files@),
                top_n as int,
                t,
            ),
{
    let t: i64 = now();
    find_relevant_at(records, candidate_files, top_n, t)
}

proof fn cross(x1: nat, d1: nat, x2: nat, d2: nat, x3: nat, d3: nat)
    requires
        x1 * d2 >= x2 * d1,
        x2 * d3 >= x3 * d2,
        d1 > 0,
        d2 > 0,
        d3 > 0,
    ensures
        x1 * d3 >= x3 * d1,
{
    assert(x1 * d2 * d3 >= x2 * d1 * d3) by (nonlinear_arith)
        requires
            x1 * d2 >= x2 * d1,
            d3 > 0,
    ;
    assert(x2 * d3 * d1 >= x3 * d2 * d1) by (nonlinear_arith)
        requires
            x2 * d3 >= x3 * d2,
            d1 > 0,
    ;
    assert(x2 * d1 * d3 == x2 * d3 * d1) by (nonlinear_arith);
    assert((x1 * d3) * d2 >= (x3 * d1) * d2) by (nonlinear_arith)
        requires
            x1 * d2 * d3 >= x3 * d2 * d1,
    ;
    assert(x1 * d3 >= x3 * d1) by (nonlinear_arith)
        requires
            (x1 * d3) * d2 >= (x3 * d1) * d2,
            d2 > 0,
    ;
}

/// The newest records are kept, newest first: as many as there may be, all
/// of them from the list, and none left out is newer than one that is kept.
pub proof fn newest_are_kept(rs: Seq<TaskView>, limit: int, i: int, j: int, r: TaskView)
    requires
        limit >= 0,
        0 <= i <= j < recent(rs, limit).len(),
        rs.contains(r),
    ensures
        recent(rs, limit).len() == (if rs.len() <= limit {
            rs.len() as int
        } else {
            limit
        }),
        rs.contains(recent(rs, limit)[i]),
        recent(rs, limit)[i].timestamp >= recent(rs, limit)[j].timestamp,
        recent(rs, limit).contains(r) || recent(rs, limit)[i].timestamp >= r.timestamp,
{
    let le = newer();
    let sorted = order::sorted_by(rs, le);
    let kept = recent(rs, limit);
    assert(order::sorts(le));
    order::sorted_is_sorted(rs, le);
    order::sorted_same_items(rs, le);
    assert(kept[i] == sorted[i] && kept[j] == sorted[j]);
    assert(sorted.contains(sorted[i]));
    if i < j {
        assert(le(sorted[i], sorted[j]));
    }
    assert(sorted.contains(r));
    let k = sorted.index_of(r);
    if k < kept.len() {
        assert(kept[k] == r);
    } else {
        assert(le(sorted[i], sorted[k]));
    }
}

/// Of the tasks that are found, none scores lower than one behind it, and
/// each shares a file with the candidates.
pub proof fn best_come_first(
    rs: Seq<TaskView>,
    candidates: Seq<Seq<char>>,
    top: int,
    now: int,
    i: int,
    j: int,
)
    requires
        candidates.len() > 0,
        top >= 0,
        0 <= i <= j < relevant(rs, candidates, top, now).len(),
    ensures
        scores(candidates, now)(
            relevant(rs, candidates, top, now)[i],
            relevant(rs, candidates, top, now)[j],
        ),
        overlap(relevant(rs, candidates, top, now)[i].files_modified, candidates) > 0,
{
    let le = scores(candidates, now);
    let some = sharing(recent(rs, SCAN_LIMIT as int), candidates);
    assert(order::sorts(le)) by {
        assert forall|a: TaskView, b: TaskView, c: TaskView| #[trigger] le(a, b) && #[trigger] le(
            b,
            c,
        ) implies le(a, c) by {
            cross(
                overlap(a.files_modified, candidates),
                days(a.timestamp, now) + 1,
                overlap(b.files_modified, candidates),
                days(b.timestamp, now) + 1,
                overlap(c.files_modified, candidates),
                days(c.timestamp, now) + 1,
            );
        }
    }
    order::sorted_is_sorted(some, le);
    order::sorted_same_items(some, le);
    let sorted = order::sorted_by(some, le);
    assert(le(sorted[i], sorted[j]));
    assert(sorted.contains(sorted[i]));
    sharing_share(recent(rs, SCAN_LIMIT as int), candidates, sorted[i]);
}

proof fn sharing_share(rs: Seq<TaskView>, candidates: Seq<Seq<char>>, r: TaskView)
    requires
        sharing(rs, candidates).contains(r),
    ensures
        overlap(r.files_modified, candidates) > 0,
    decreases rs.len(),
{
    if rs.len() > 0 {
        let s = sharing(rs, candidates);
        let k = s.index_of(r);
        if overlap(rs.last().files_modified, candidates) > 0 {
            let t = sharing(rs.drop_last(), candidates);
            if k < t.len() {
                assert(t[k] == r);
                sharing_share(rs.drop_last(), candidates, r);
            }
        } else {
            sharing_share(rs.drop_last(), candidates, r);
        }
    }
}

// ── Summaries ────────────────────────────────────────────────────────────────

/// Whether a line is prose: not empty, and no heading, list or code.
pub open spec fn prose(t: Seq<char>) -> bool {
    t.len() > 0 && !text::begins(t, "#"@) && !text::begins(t, "-"@) && !text::begins(t, "`"@)
}

pub open spec fn prose_lines(ls: Seq<Seq<char>>) -> Seq<Seq<char>>
    decreases ls.len(),
{
    if ls.len() == 0 {
        Seq::empty()
    } else if prose(text::trim(ls.last())) {
        prose_lines(ls.drop_last()).push(text::trim(ls.last()))
    } else {
        prose_lines(ls.drop_last())
    }
}

/// How many characters of a text go into a summary.
pub const SUMMARY_CHARS: usize = 150;

/// `s`, or its front where it is long: up to the last end of a sentence
/// there, or marked as cut off.
pub open spec fn cut_short(s: Seq<char>) -> Seq<char> {
    let head = text::first_chars(s, SUMMARY_CHARS as int);
    if s.len() <= SUMMARY_CHARS {
        s
    } else {
        let cut_off = text::trim_end_set(head, CharSet::White) + "…"@;
        match text::last_of(head, CharSet::OneOf(".!?")) {
            Some(i) => if number::width(head.take(i + 1)) > 20 {
                head.take(i + 1)
            } else {
                cut_off
            },
            None => cut_off,
        }
    }
}

/// The first sentences of an answer, or of all its text where none of its
/// lines is prose.
pub open spec fn summary_of(answer: Seq<char>) -> Seq<char> {
    let lines = prose_lines(pieces::lines(text::trim(answer)));
    cut_short(
        if lines.len() > 0 {
            pieces::join(lines, " "@)
        } else {
            text::trim(answer)
        },
    )
}

fn shortened(s: &str) -> (r: String)
    ensures
        r@ == cut_short(s@),
{
    if count(s) <= SUMMARY_CHARS {
        return s.to_owned();
    }
    let head = take_chars(s, SUMMARY_CHARS);
    match rfind_set(head.as_str(), CharSet::OneOf(".!?")) {
        Some(at) => {
            let sentence = cut(head.as_str(), 0, at + 1);
            assert(sentence@ =~= head@.take(at + 1));
            if byte_len(sentence.as_str()) > 20 {
                return sentence;
            }
        },
        None => {},
    }
    let mut r = trim_back_by(head.as_str(), CharSet::White);
    r.append("…");
    r
}

/// The first sentences of an answer.
pub fn extract_summary(response_text: &str) -> (r: String)
    ensures
        r@ == summary_of(response_text@),
{
    let all = trimmed(response_text);
    let ls = lines_of(all.as_str());
    let ghost lv = text::views(ls@);
    let mut kept: Vec<String> = Vec::new();
    let mut i: usize = 0;
    proof {
        text::views_empty();
        assert(lv.take(0) =~= Seq::<Seq<char>>::empty());
    }
    while i < ls.len()
        invariant
            i <= ls.len(),
            lv == text::views(ls@),
            text::views(kept@) == prose_lines(lv.take(i as int)),
        decreases ls.len() - i,
    {
        assert(lv.take(i + 1).drop_last() =~= lv.take(i as int));
        assert(lv.take(i + 1).last() == ls@[i as int]@);
        let t = trimmed(ls[i].as_str());
        if count(t.as_str()) > 0 && !begins_with(t.as_str(), "#") && !begins_with(t.as_str(), "-")
            && !begins_with(t.as_str(), "`") {
            kept.push(t);
        }
        i += 1;
    }
    assert(lv.take(i as int) =~= lv);
    assert(text::views(kept@).len() == kept@.len());
    if kept.len() > 0 {
        shortened(join_with(&kept, " ").as_str())
    } else {
        shortened(all.as_str())
    }
}

/// A summary is no longer than its limit and the mark of a cut.
pub proof fn summary_is_short(answer: Seq<char>)
    ensures
        summary_of(answer).len() <= SUMMARY_CHARS + 1,
{
    let lines = prose_lines(pieces::lines(text::trim(answer)));
    let s = if lines.len() > 0 {
        pieces::join(lines, " "@)
    } else {
        text::trim(answer)
    };
    let head = text::first_chars(s, SUMMARY_CHARS as int);
    text::trail_bound(head, CharSet::White);
    reveal_strlit("…");
    last_of_bound(head, CharSet::OneOf(".!?"));
}

/// An answer that says anything has a summary that does.
pub proof fn answer_has_summary(answer: Seq<char>)
    requires
        text::trim(answer).len() > 0,
    ensures
        summary_of(answer).len() > 0,
{
    let lines = prose_lines(pieces::lines(text::trim(answer)));
    let s = if lines.len() > 0 {
        pieces::join(lines, " "@)
    } else {
        text::trim(answer)
    };
    reveal_strlit("…");
    prose_is_said(pieces::lines(text::trim(answer)));
    assert(s.len() > 0) by {
        if lines.len() > 0 {
            assert(lines[lines.len() - 1].len() > 0);
        }
    }
    last_of_bound(text::first_chars(s, SUMMARY_CHARS as int), CharSet::OneOf(".!?"));
}

proof fn prose_is_said(ls: Seq<Seq<char>>)
    ensures
        forall|i: int| 0 <= i < prose_lines(ls).len() ==> (#[trigger] prose_lines(ls)[i]).len() > 0,
    decreases ls.len(),
{
    if ls.len() > 0 {
        let t = prose_lines(ls.drop_last());
        let all = prose_lines(ls);
        prose_is_said(ls.drop_last());
        assert forall|i: int| 0 <= i < all.len() implies (#[trigger] all[i]).len() > 0 by {
            if i < t.len() {
                assert(all[i] == t[i]);
            }
        }
    }
}

proof fn last_of_bound(s: Seq<char>, cs: CharSet<'_>)
    ensures
        match text::last_of(s, cs) {
            Some(i) => 0 <= i < s.len(),
            None => true,
        },
    decreases s.len(),
{
    if s.len() > 0 {
        last_of_bound(s.drop_last(), cs);
    }
}

/// Files overlap in as many as the candidates hold, and the tasks that share
/// are those that overlap in one at least.
pub proof fn overlaps_are_counted(
    files: Seq<Seq<char>>,
    rs: Seq<TaskView>,
    candidates: Seq<Seq<char>>,
)
    ensures
        overlap(files, candidates) == files.filter(|f: Seq<char>| candidates.contains(f)).len(),
        sharing(rs, candidates) == rs.filter(
            |r: TaskView| overlap(r.files_modified, candidates) > 0,
        ),
    decreases files.len() + rs.len(),
{
    reveal(Seq::filter);
    if files.len() > 0 {
        overlaps_are_counted(files.drop_last(), rs, candidates);
    } else if rs.len() > 0 {
        overlaps_are_counted(files, rs.drop_last(), candidates);
    }
}

/// A task of the two hundred newest that shares a file is found, unless as many
/// as are asked for are found that score no less.
pub proof fn no_better_task_is_left_out(
    rs: Seq<TaskView>,
    candidates: Seq<Seq<char>>,
    top: int,
    now: int,
    r: TaskView,
    i: int,
)
    requires
        candidates.len() > 0,
        top >= 0,
        recent(rs, 200).contains(r),
        exists|k: int|
            0 <= k < r.files_modified.len() && candidates.contains(#[trigger] r.files_modified[k]),
        0 <= i < relevant(rs, candidates, top, now).len(),
    ensures
        ({
            let found = relevant(rs, candidates, top, now);
            found.contains(r) || (found.len() == top && overlap(found[i].files_modified, candidates)
                * (days(r.timestamp, now) + 1) >= overlap(r.files_modified, candidates) * (days(
                found[i].timestamp,
                now,
            ) + 1))
        }),
{
    broadcast use vstd::seq_lib::group_to_multiset_ensures;

    let le = scores(candidates, now);
    let new = recent(rs, 200);
    let some = sharing(new, candidates);
    let sorted = order::sorted_by(some, le);
    let found = relevant(rs, candidates, top, now);
    overlaps_are_counted(r.files_modified, new, candidates);
    let p = |x: TaskView| overlap(x.files_modified, candidates) > 0;
    let held = |f: Seq<char>| candidates.contains(f);
    let k = choose|k: int|
        0 <= k < r.files_modified.len() && candidates.contains(#[trigger] r.files_modified[k]);
    r.files_modified.lemma_filter_contains(held, k);
    let j = new.index_of(r);
    new.lemma_filter_contains(p, j);
    assert(some.contains(r));
    assert(order::sorts(le)) by {
        assert forall|a: TaskView, b: TaskView, c: TaskView| #[trigger] le(a, b) && #[trigger] le(
            b,
            c,
        ) implies le(a, c) by {
            cross(
                overlap(a.files_modified, candidates),
                days(a.timestamp, now) + 1,
                overlap(b.files_modified, candidates),
                days(b.timestamp, now) + 1,
                overlap(c.files_modified, candidates),
                days(c.timestamp, now) + 1,
            );
        }
    }
    order::sorted_is_sorted(some, le);
    order::sorted_same_items(some, le);
    assert(sorted.contains(r));
    let x = sorted.index_of(r);
    if x < found.len() {
        assert(found[x] == r);
    } else {
        assert(found[i] == sorted[i]);
        assert(le(sorted[i], sorted[x]));
    }
}

/// An age is told in the largest unit that fits, rounded down.
pub proof fn ages_are_rounded_down(secs: nat, n: nat)
    ensures
        secs < 120 ==> age(secs) == "just now"@,
        120 <= secs < 3600 && 60 * n <= secs < 60 * (n + 1) ==> age(secs) == number::decimal(n)
            + "m ago"@,
        3600 <= secs < 86400 && 3600 * n <= secs < 3600 * (n + 1) ==> age(secs) == number::decimal(n)
            + "h ago"@,
        86400 <= secs && 86400 * n <= secs < 86400 * (n + 1) ==> age(secs) == number::decimal(n)
            + "d ago"@,
{
}

/// The prose of an answer is its lines that are neither blank nor headings,
/// items of a list or code, without the white space around them.
pub proof fn prose_is_what_is_said(ls: Seq<Seq<char>>)
    ensures
        prose_lines(ls) == ls.map_values(|l: Seq<char>| text::trim(l)).filter(
            |t: Seq<char>| t.len() > 0 && t[0] != '#' && t[0] != '-' && t[0] != '`',
        ),
    decreases ls.len(),
{
    reveal(Seq::filter);
    reveal_strlit("#");
    reveal_strlit("-");
    reveal_strlit("`");
    let f = |l: Seq<char>| text::trim(l);
    if ls.len() > 0 {
        prose_is_what_is_said(ls.drop_last());
        assert(ls.map_values(f).drop_last() =~= ls.drop_last().map_values(f));
        let t = text::trim(ls.last());
        if t.len() > 0 {
            assert(t.subrange(0, 1)[0] == t[0]);
            if t[0] == '#' {
                assert(t.subrange(0, 1) =~= "#"@);
            }
            if t[0] == '-' {
                assert(t.subrange(0, 1) =~= "-"@);
            }
            if t[0] == '`' {
                assert(t.subrange(0, 1) =~= "`"@);
            }
        }
    } else {
        assert(ls.map_values(f) =~= Seq::empty());
    }
}

proof fn last_mark(f: Seq<char>)
    ensures
        match text::last_of(f, CharSet::OneOf(".!?")) {
            Some(i) => 0 <= i < f.len() && (f[i] == '.' || f[i] == '!' || f[i] == '?') && forall|k: int|
                i < k < f.len() ==> (#[trigger] f[k]) != '.' && f[k] != '!' && f[k] != '?',
            None => forall|k: int|
                0 <= k < f.len() ==> (#[trigger] f[k]) != '.' && f[k] != '!' && f[k] != '?',
        },
    decreases f.len(),
{
    reveal_strlit(".!?");
    let t = ".!?"@;
    assert(t[0] == '.' && t[1] == '!' && t[2] == '?');
    if f.len() > 0 {
        let c = f.last();
        assert(t.contains(c) <==> c == '.' || c == '!' || c == '?');
        let g = f.drop_last();
        last_mark(g);
        assert forall|k: int| 0 <= k < g.len() implies #[trigger] f[k] == g[k] by {}
    }
}

/// A text that is short enough is kept. Another is cut behind the last
/// sentence that ends in time, if that leaves more than twenty bytes, and else
/// where it gets too long, which then shows.
pub proof fn cut_falls_behind_a_sentence(s: Seq<char>, i: int)
    ensures
        s.len() <= 150 ==> cut_short(s) == s,
        s.len() > 150 && 0 <= i < 150 && (s[i] == '.' || s[i] == '!' || s[i] == '?')
            && (forall|k: int|
            i < k < 150 ==> (#[trigger] s[k]) != '.' && s[k] != '!' && s[k] != '?')
            && number::width(s.take(i + 1)) > 20 ==> cut_short(s) == s.take(i + 1),
        s.len() > 150 && (forall|k: int|
            0 <= k < 150 ==> (#[trigger] s[k]) != '.' && s[k] != '!' && s[k] != '?')
            ==> cut_short(s) == text::trim_end_set(s.take(150), CharSet::White)
            + "…"@,
{
    if s.len() > 150 {
        let n = 150;
        let head = s.take(n);
        assert(text::first_chars(s, n) =~= head);
        last_mark(head);
        assert forall|k: int| 0 <= k < n implies #[trigger] s[k] == head[k] by {}
        if 0 <= i < n {
            assert(head.take(i + 1) =~= s.take(i + 1));
        }
        if let Some(j) = text::last_of(head, CharSet::OneOf(".!?")) {
            assert(s[j] == head[j]);
            if 0 <= i < n {
                assert(s[i] == head[i]);
                if i < j {
                    assert(s[j] == head[j]);
                } else if j < i {
                    assert(head[i] == s[i]);
                }
            }
        } else if 0 <= i < n {
            assert(head[i] == s[i]);
        }
    }
}

/// Where files are asked for, only the two hundred newest tasks are looked at;
/// and a summary has a hundred and fifty characters and the mark of a cut at
/// most.
pub proof fn newest_are_looked_at(
    rs: Seq<TaskView>,
    candidates: Seq<Seq<char>>,
    top: int,
    now: int,
    answer: Seq<char>,
)
    requires
        candidates.len() > 0,
    ensures
        relevant(rs, candidates, top, now) == relevant(recent(rs, 200), candidates, top, now),
        summary_of(answer).len() <= 151,
{
    let le = newer();
    let all = order::sorted_by(rs, le);
    assert(order::sorts(le));
    order::sorted_is_sorted(rs, le);
    let new = recent(rs, 200);
    assert(order::in_order(new, le));
    order::sorting_again(new, le);
    assert(recent(new, 200) == new);
    summary_is_short(answer);
}

} // verus!
