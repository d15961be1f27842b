//! What a session used, and what all sessions used together.

use crate::clock::now;
use crate::paths;
use crate::paths::path_below;
use crate::sessions;
use crate::text;
use crate::text::take_chars;
use vstd::prelude::*;

verus! {

// ── Where the records lie ────────────────────────────────────────────────────

/// The file of records.
pub open spec fn records_file(data_home: Option<Seq<char>>, home: Option<Seq<char>>) -> Seq<char> {
    let base = match data_home {
        Some(d) => d,
        None => paths::below(
            match home {
                Some(h) => h,
                None => "."@,
            },
            ".local/share"@,
        ),
    };
    paths::below(paths::below(base, "parecode"@), "telemetry.jsonl"@)
}

/// The file of records, from `XDG_DATA_HOME` and `HOME`.
pub fn telemetry_path(data_home: Option<&str>, home: Option<&str>) -> (r: String)
    ensures
        r@ == records_file(sessions::opt_str(data_home), sessions::opt_str(home)),
{
    let base = match data_home {
        Some(d) => d.to_owned(),
        None => path_below(
            match home {
                Some(h) => h,
                None => ".",
            },
            ".local/share",
        ),
    };
    path_below(path_below(base.as_str(), "parecode").as_str(), "telemetry.jsonl")
}

// ── Records ──────────────────────────────────────────────────────────────────

/// What a task used.
#[derive(Debug)]
pub struct TaskRecord {
    pub timestamp: i64,
    pub session_id: String,
    /// The name of the project's directory.
    pub cwd: String,
    /// The start of what the user asked.
    pub task_preview: String,
    pub input_tokens: u32,
    pub output_tokens: u32,
    pub tool_calls: usize,
    pub compressed_count: usize,
    pub duration_secs: u32,
    pub model: String,
    pub profile: String,
}

/// What a `TaskRecord` says.
#[verifier::ext_equal]
pub struct RecordView {
    pub timestamp: int,
    pub session_id: Seq<char>,
    pub cwd: Seq<char>,
    pub task_preview: Seq<char>,
    pub input_tokens: nat,
    pub output_tokens: nat,
    pub tool_calls: nat,
    pub compressed_count: nat,
    pub duration_secs: nat,
    pub model: Seq<char>,
    pub profile: Seq<char>,
}

impl View for TaskRecord {
    type V = RecordView;

    open spec fn view(&self) -> RecordView {
        RecordView {
            timestamp: self.timestamp as int,
            session_id: self.session_id@,
            cwd: self.cwd@,
            task_preview: self.task_preview@,
            input_tokens: self.input_tokens as nat,
            output_tokens: self.output_tokens as nat,
            tool_calls: self.tool_calls as nat,
            compressed_count: self.compressed_count as nat,
            duration_secs: self.duration_secs as nat,
            model: self.model@,
            profile: self.profile@,
        }
    }
}

impl Clone for TaskRecord {
    fn clone(&self) -> (r: Self)
        ensures
            r@ == self@,
    {
        TaskRecord {
            timestamp: self.timestamp,
            session_id: self.session_id.clone(),
            cwd: self.cwd.clone(),
            task_preview: self.task_preview.clone(),
            input_tokens: self.input_tokens,
            output_tokens: self.output_tokens,
            tool_calls: self.tool_calls,
            compressed_count: self.compressed_count,
            duration_secs: self.duration_secs,
            model: self.model.clone(),
            profile: self.profile.clone(),
        }
    }
}

pub open spec fn record_views(v: Seq<TaskRecord>) -> Seq<RecordView> {
    Seq::new(v.len(), |i: int| v[i]@)
}

// ── A session ────────────────────────────────────────────────────────────────

/// What a session used so far.
#[derive(Debug)]
pub struct SessionStats {
    pub tasks_completed: usize,
    pub total_input_tokens: u32,
    pub total_output_tokens: u32,
    pub total_tool_calls: usize,
    pub total_compressed: usize,
    /// How often the conversation had to be compressed.
    pub budget_enforcements: usize,
    /// The fullest that the context was, in percent.
    pub peak_context_pct: u32,
    pub records: Vec<TaskRecord>,
    /// What the running task used so far.
    pub inflight_input_tokens: u32,
    pub inflight_output_tokens: u32,
    pub inflight_tool_calls: usize,
    /// Unix time at which the running task was last written down.
    pub last_flush_ts: i64,
}

impl Default for SessionStats {
    fn default() -> (r: Self)
        ensures
            r.tasks_completed == 0,
            r.total_input_tokens == 0,
            r.total_output_tokens == 0,
            r.total_tool_calls == 0,
            r.total_compressed == 0,
            r.budget_enforcements == 0,
            r.peak_context_pct == 0,
            r.records@ == Seq::<TaskRecord>::empty(),
            r.inflight_input_tokens == 0,
            r.inflight_output_tokens == 0,
            r.inflight_tool_calls == 0,
            r.last_flush_ts == 0,
    {
        SessionStats {
            tasks_completed: 0,
            total_input_tokens: 0,
            total_output_tokens: 0,
            total_tool_calls: 0,
            total_compressed: 0,
            budget_enforcements: 0,
            peak_context_pct: 0,
            records: Vec::new(),
            inflight_input_tokens: 0,
            inflight_output_tokens: 0,
            inflight_tool_calls: 0,
            last_flush_ts: 0,
        }
    }
}

/// `n` over `d`, where `d` counts within 32 bits.
pub open spec fn per(n: nat, d: nat) -> nat {
    n / (d % 0x1_0000_0000)
}

impl SessionStats {
    /// Whether the totals can take a task.
    pub open spec fn has_room(
        &self,
        input_tokens: u32,
        output_tokens: u32,
        tool_calls: usize,
        compressed_count: usize,
    ) -> bool {
        &&& self.tasks_completed < usize::MAX
        &&& self.total_input_tokens + input_tokens <= u32::MAX
        &&& self.total_output_tokens + output_tokens <= u32::MAX
        &&& self.total_tool_calls + tool_calls <= usize::MAX
        &&& self.total_compressed + compressed_count <= usize::MAX
    }

    /// The session after one more task.
    pub open spec fn counted(&self, before: SessionStats, r: RecordView) -> bool {
        &&& self.tasks_completed == before.tasks_completed + 1
        &&& self.total_input_tokens == before.total_input_tokens + r.input_tokens
        &&& self.total_output_tokens == before.total_output_tokens + r.output_tokens
        &&& self.total_tool_calls == before.total_tool_calls + r.tool_calls
        &&& self.total_compressed == before.total_compressed + r.compressed_count
        &&& record_views(self.records@) == record_views(before.records@).push(r)
        &&& self.budget_enforcements == before.budget_enforcements
        &&& self.peak_context_pct == before.peak_context_pct
        &&& self.inflight_input_tokens == before.inflight_input_tokens
        &&& self.inflight_output_tokens == before.inflight_output_tokens
        &&& self.inflight_tool_calls == before.inflight_tool_calls
        &&& self.last_flush_ts == before.last_flush_ts
    }

    /// Takes note of a task that ended at a time.
    pub fn record_task_at(
        &mut self,
        timestamp: i64,
        session_id: &str,
        cwd: &str,
        task_preview: &str,
        input_tokens: u32,
        output_tokens: u32,
        tool_calls: usize,
        compressed_count: usize,
        duration_secs: u32,
        model: &str,
        profile: &str,
    ) -> (r: TaskRecord)
        requires
            old(self).has_room(input_tokens, output_tokens, tool_calls, compressed_count),
        ensures
            r@ == (RecordView {
                timestamp: timestamp as int,
                session_id: session_id@,
                cwd: cwd@,
                task_preview: text::first_chars(task_preview@, 80),
                input_tokens: input_tokens as nat,
                output_tokens: output_tokens as nat,
                tool_calls: tool_calls as nat,
                compressed_count: compressed_count as nat,
                duration_secs: duration_secs as nat,
                model: model@,
                profile: profile@,
            }),
            final(self).counted(*old(self), r@),
    {
        self.tasks_completed = self.tasks_completed + 1;
        self.total_input_tokens = self.total_input_tokens + input_tokens;
        self.total_output_tokens = self.total_output_tokens + output_tokens;
        self.total_tool_calls = self.total_tool_calls + tool_calls;
        self.total_compressed = self.total_compressed + compressed_count;
        let record = TaskRecord {
            timestamp,
            session_id: session_id.to_owned(),
            cwd: cwd.to_owned(),
            task_preview: take_chars(task_preview, 80),
            input_tokens,
            output_tokens,
            tool_calls,
            compressed_count,
            duration_secs,
            model: model.to_owned(),
            profile: profile.to_owned(),
        };
        self.records.push(record.clone());
        assert(record_views(self.records@) =~= record_views(old(self).records@).push(record@));
        record
    }

    /// Takes note of a task that has just ended.
    pub fn record_task(
        &mut self,
        session_id: &str,
        cwd: &str,
        task_preview: &str,
        input_tokens: u32,
        output_tokens: u32,
        tool_calls: usize,
        compressed_count: usize,
        duration_secs: u32,
        model: &str,
        profile: &str,
    ) -> (r: TaskRecord)
        requires
            old(self).has_room(input_tokens, output_tokens, tool_calls, compressed_count),
        ensures
            r@ == (RecordView {
                timestamp: r.timestamp as int,
                session_id: session_id@,
                cwd: cwd@,
                task_preview: text::first_chars(task_preview@, 80),
                input_tokens: input_tokens as nat,
                output_tokens: output_tokens as nat,
                tool_calls: tool_calls as nat,
                compressed_count: compressed_count as nat,
                duration_secs: duration_secs as nat,
                model: model@,
                profile: profile@,
            }),
            final(self).counted(*old(self), r@),
    {
        let ts: i64 = now();
        self.record_task_at(
            ts,
            session_id,
            cwd,
            task_preview,
            input_tokens,
            output_tokens,
            tool_calls,
            compressed_count,
            duration_secs,
            model,
            profile,
        )
    }

    /// Takes note of how full the context is.
    pub fn update_peak_context(&mut self, pct: u32)
        ensures
            *final(self) == (SessionStats {
                peak_context_pct: if pct > old(self).peak_context_pct {
                    pct
                } else {
                    old(self).peak_context_pct
                },
                ..*old(self)
            }),
    {
        if pct > self.peak_context_pct {
            self.peak_context_pct = pct;
        }
    }

    /// Takes note that the conversation was compressed.
    pub fn record_budget_enforcement(&mut self)
        requires
            old(self).budget_enforcements < usize::MAX,
        ensures
            *final(self) == (SessionStats {
                budget_enforcements: (old(self).budget_enforcements + 1) as usize,
                ..*old(self)
            }),
    {
        self.budget_enforcements = self.budget_enforcements + 1;
    }

    pub fn total_tokens(&self) -> (r: u32)
        requires
            self.total_input_tokens + self.total_output_tokens <= u32::MAX,
        ensures
            r == self.total_input_tokens + self.total_output_tokens,
    {
        self.total_input_tokens + self.total_output_tokens
    }

    pub fn avg_tokens_per_task(&self) -> (r: u32)
        requires
            self.total_input_tokens + self.total_output_tokens <= u32::MAX,
            self.tasks_completed == 0 || self.tasks_completed as nat % 0x1_0000_0000 != 0,
        ensures
            r == (if self.tasks_completed == 0 {
                0
            } else {
                per(
                    (self.total_input_tokens + self.total_output_tokens) as nat,
                    self.tasks_completed as nat,
                )
            }),
    {
        if self.tasks_completed == 0 {
            return 0;
        }
        self.total_tokens() / low_bits(self.tasks_completed)
    }

    /// Takes note of what the running task used so far.
    pub fn update_inflight(&mut self, total_input: u32, total_output: u32, tool_calls: usize)
        ensures
            *final(self) == (SessionStats {
                inflight_input_tokens: total_input,
                inflight_output_tokens: total_output,
                inflight_tool_calls: tool_calls,
                ..*old(self)
            }),
    {
        self.inflight_input_tokens = total_input;
        self.inflight_output_tokens = total_output;
        self.inflight_tool_calls = tool_calls;
    }

    /// Forgets the running task.
    pub fn clear_inflight(&mut self)
        ensures
            *final(self) == (SessionStats {
                inflight_input_tokens: 0,
                inflight_output_tokens: 0,
                inflight_tool_calls: 0,
                last_flush_ts: 0,
                ..*old(self)
            }),
    {
        self.inflight_input_tokens = 0;
        self.inflight_output_tokens = 0;
        self.inflight_tool_calls = 0;
        self.last_flush_ts = 0;
    }

    /// Whether at a time it is long enough since the running task was last
    /// written down. If so, that time counts from now on.
    pub fn should_flush_at(&mut self, now: i64, interval_secs: i64) -> (r: bool)
        ensures
            r == (old(self).last_flush_ts == 0 || now - old(self).last_flush_ts >= interval_secs),
            *final(self) == (SessionStats {
                last_flush_ts: if r {
                    now
                } else {
                    old(self).last_flush_ts
                },
                ..*old(self)
            }),
    {
        if self.last_flush_ts == 0 || now as i128 - self.last_flush_ts as i128
            >= interval_secs as i128 {
            self.last_flush_ts = now;
            true
        } else {
            false
        }
    }

    /// Whether it is long enough since the running task was last written
    /// down.
    pub fn should_flush(&mut self, interval_secs: i64) -> (r: bool)
        ensures
            old(self).last_flush_ts == 0 ==> r,
            !r ==> *final(self) == *old(self),
            r ==> old(self).last_flush_ts == 0 || final(self).last_flush_ts
                - old(self).last_flush_ts >= interval_secs,
            *final(self) == (SessionStats {
                last_flush_ts: final(self).last_flush_ts,
                ..*old(self)
            }),
    {
        let t: i64 = now();
        self.should_flush_at(t, interval_secs)
    }

    /// All tokens, those of the running task among them.
    pub fn live_total_tokens(&self) -> (r: u32)
        requires
            self.total_input_tokens + self.total_output_tokens + self.inflight_input_tokens
                + self.inflight_output_tokens <= u32::MAX,
        ensures
            r == self.total_input_tokens + self.total_output_tokens + self.inflight_input_tokens
                + self.inflight_output_tokens,
    {
        self.total_input_tokens + self.total_output_tokens + self.inflight_input_tokens
            + self.inflight_output_tokens
    }
}

fn low_bits(n: usize) -> (r: u32)
    ensures
        r == n as nat % 0x1_0000_0000,
{
    (n as u64 % 0x1_0000_0000) as u32
}

// ── All sessions ─────────────────────────────────────────────────────────────

/// What many tasks used together.
#[derive(Debug)]
pub struct Aggregate {
    pub tasks: usize,
    pub input_tokens: u32,
    pub output_tokens: u32,
    pub tool_calls: usize,
    pub compressed: usize,
    pub duration_secs: u32,
}

/// The sums over records.
#[verifier::ext_equal]
pub struct Sums {
    pub input_tokens: nat,
    pub output_tokens: nat,
    pub tool_calls: nat,
    pub compressed: nat,
    pub duration_secs: nat,
}

pub open spec fn sums(rs: Seq<RecordView>) -> Sums
    decreases rs.len(),
{
    if rs.len() == 0 {
        Sums { input_tokens: 0, output_tokens: 0, tool_calls: 0, compressed: 0, duration_secs: 0 }
    } else {
        let s = sums(rs.drop_last());
        let r = rs.last();
        Sums {
            input_tokens: s.input_tokens + r.input_tokens,
            output_tokens: s.output_tokens + r.output_tokens,
            tool_calls: s.tool_calls + r.tool_calls,
            compressed: s.compressed + r.compressed_count,
            duration_secs: s.duration_secs + r.duration_secs,
        }
    }
}

/// Whether the sums fit into an `Aggregate`.
pub open spec fn fit(s: Sums) -> bool {
    &&& s.input_tokens <= u32::MAX
    &&& s.output_tokens <= u32::MAX
    &&& s.tool_calls <= usize::MAX
    &&& s.compressed <= usize::MAX
    &&& s.duration_secs <= u32::MAX
}

/// What two lots of tasks used together is what each used, added up.
pub proof fn sums_add_up(a: Seq<RecordView>, b: Seq<RecordView>)
    ensures
        sums(a + b).input_tokens == sums(a).input_tokens + sums(b).input_tokens,
        sums(a + b).output_tokens == sums(a).output_tokens + sums(b).output_tokens,
        sums(a + b).tool_calls == sums(a).tool_calls + sums(b).tool_calls,
        sums(a + b).compressed == sums(a).compressed + sums(b).compressed,
        sums(a + b).duration_secs == sums(a).duration_secs + sums(b).duration_secs,
    decreases b.len(),
{
    if b.len() == 0 {
        assert(a + b =~= a);
    } else {
        sums_add_up(a, b.drop_last());
        assert((a + b).drop_last() =~= a + b.drop_last());
        assert((a + b).last() == b.last());
    }
}

impl Aggregate {
    /// What the tasks used together.
    pub fn from_records(records: &Vec<TaskRecord>) -> (r: Self)
        requires
            fit(sums(record_views(records@))),
        ensures
            ({
                let s = sums(record_views(records@));
                &&& r.tasks == records.len()
                &&& r.input_tokens == s.input_tokens
                &&& r.output_tokens == s.output_tokens
                &&& r.tool_calls == s.tool_calls
                &&& r.compressed == s.compressed
                &&& r.duration_secs == s.duration_secs
            }),
    {
        let ghost rs = record_views(records@);
        let mut a = Aggregate {
            tasks: records.len(),
            input_tokens: 0,
            output_tokens: 0,
            tool_calls: 0,
            compressed: 0,
            duration_secs: 0,
        };
        let mut i: usize = 0;
        assert(rs.take(0) =~= Seq::<RecordView>::empty());
        while i < records.len()
            invariant
                i <= records.len(),
                rs == record_views(records@),
                fit(sums(rs)),
                a.tasks == records.len(),
                a.input_tokens == sums(rs.take(i as int)).input_tokens,
                a.output_tokens == sums(rs.take(i as int)).output_tokens,
                a.tool_calls == sums(rs.take(i as int)).tool_calls,
                a.compressed == sums(rs.take(i as int)).compressed,
                a.duration_secs == sums(rs.take(i as int)).duration_secs,
            decreases records.len() - i,
        {
            proof {
                assert(rs.take(i + 1).drop_last() =~= rs.take(i as int));
                assert(rs.take(i + 1).last() == records@[i as int]@);
                sums_add_up(rs.take(i + 1), rs.skip(i + 1));
                assert(rs.take(i + 1) + rs.skip(i + 1) =~= rs);
            }
            a.input_tokens = a.input_tokens + records[i].input_tokens;
            a.output_tokens = a.output_tokens + records[i].output_tokens;
            a.tool_calls = a.tool_calls + records[i].tool_calls;
            a.compressed = a.compressed + records[i].compressed_count;
            a.duration_secs = a.duration_secs + records[i].duration_secs;
            i += 1;
        }
        assert(rs.take(i as int) =~= rs);
        a
    }

    pub fn total_tokens(&self) -> (r: u32)
        requires
            self.input_tokens + self.output_tokens <= u32::MAX,
        ensures
            r == self.input_tokens + self.output_tokens,
    {
        self.input_tokens + self.output_tokens
    }

    pub fn _avg_tokens_per_task(&self) -> (r: u32)
        requires
            self.input_tokens + self.output_tokens <= u32::MAX,
            self.tasks == 0 || self.tasks as nat % 0x1_0000_0000 != 0,
        ensures
            r == (if self.tasks == 0 {
                0
            } else {
                per((self.input_tokens + self.output_tokens) as nat, self.tasks as nat)
            }),
    {
        if self.tasks == 0 {
            return 0;
        }
        self.total_tokens() / low_bits(self.tasks)
    }
}

/// A task adds what it used, each count to its own sum.
pub proof fn one_record_is_its_own_sum(r: RecordView)
    ensures
        sums(seq![r]).input_tokens == r.input_tokens,
        sums(seq![r]).output_tokens == r.output_tokens,
        sums(seq![r]).tool_calls == r.tool_calls,
        sums(seq![r]).compressed == r.compressed_count,
        sums(seq![r]).duration_secs == r.duration_secs,
        sums(Seq::empty()).input_tokens == 0,
        sums(Seq::empty()).output_tokens == 0,
        sums(Seq::empty()).tool_calls == 0,
        sums(Seq::empty()).compressed == 0,
        sums(Seq::empty()).duration_secs == 0,
{
    reveal_with_fuel(sums, 2);
    assert(seq![r].drop_last() =~= Seq::empty());
}

/// The totals of a session are the sums of its records.
pub open spec fn totals_are_sums(s: SessionStats) -> bool {
    let t = sums(record_views(s.records@));
    &&& s.tasks_completed == s.records@.len()
    &&& s.total_input_tokens == t.input_tokens
    &&& s.total_output_tokens == t.output_tokens
    &&& s.total_tool_calls == t.tool_calls
    &&& s.total_compressed == t.compressed
}

/// Counting a task keeps the totals the sums of the records.
pub proof fn counting_keeps_the_totals(after: SessionStats, before: SessionStats, r: RecordView)
    requires
        totals_are_sums(before),
        after.counted(before, r),
    ensures
        totals_are_sums(after),
{
    let a = record_views(before.records@);
    let b = record_views(after.records@);
    assert(b == a.push(r));
    assert(b.drop_last() =~= a);
    assert(b.last() == r);
    assert(b.len() == after.records@.len());
    assert(a.len() == before.records@.len());
}

} // verus!
