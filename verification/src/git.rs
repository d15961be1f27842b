//! What git is asked, and what its answers mean.

use crate::number;
use crate::number::{decimal_usize, parse_i64};
use crate::pieces;
use crate::pieces::{join_with, lines_of, split_first};
use crate::text;
use crate::text::{cut, rfind_set, trimmed, without_first, CharSet};
use vstd::prelude::*;

verus! {

broadcast use crate::text::views_push;

/// A repository.
#[derive(Debug)]
pub struct GitRepo {
    /// The directory that holds it.
    pub root: String,
}

/// A commit that marks a state to go back to.
#[derive(Debug)]
pub struct CheckpointInfo {
    pub hash: String,
    pub short_hash: String,
    pub message: String,
    /// Unix time of the commit.
    pub timestamp: i64,
}

/// What a `CheckpointInfo` says.
#[verifier::ext_equal]
pub struct CheckpointView {
    pub hash: Seq<char>,
    pub short_hash: Seq<char>,
    pub message: Seq<char>,
    pub timestamp: int,
}

impl View for CheckpointInfo {
    type V = CheckpointView;

    open spec fn view(&self) -> CheckpointView {
        CheckpointView {
            hash: self.hash@,
            short_hash: self.short_hash@,
            message: self.message@,
            timestamp: self.timestamp as int,
        }
    }
}

impl Clone for CheckpointInfo {
    fn clone(&self) -> (r: Self)
        ensures
            r@ == self@,
    {
        CheckpointInfo {
            hash: self.hash.clone(),
            short_hash: self.short_hash.clone(),
            message: self.message.clone(),
            timestamp: self.timestamp,
        }
    }
}

pub open spec fn checkpoint_views(v: Seq<CheckpointInfo>) -> Seq<CheckpointView> {
    Seq::new(v.len(), |i: int| v[i]@)
}

/// A run of git: where, and with which arguments.
#[derive(Debug)]
pub struct GitCommand {
    pub dir: String,
    pub args: Vec<String>,
}

/// How a run of git went.
#[derive(Debug)]
pub enum GitRun {
    /// It ended well, and printed this.
    Done { stdout: String },
    /// It ended with a fault, and printed this to its error output.
    Failed { stderr: String },
    /// It could not be started.
    NotStarted { error: String },
}

pub open spec fn asks(c: GitCommand, dir: Seq<char>, args: Seq<Seq<char>>) -> bool {
    c.dir@ == dir && text::views(c.args@) == args
}

fn command1(dir: &str, a: &str) -> (r: GitCommand)
    ensures
        asks(r, dir@, seq![a@]),
{
    let mut args: Vec<String> = Vec::new();
    args.push(a.to_owned());
    assert(text::views(args@) =~= seq![a@]);
    GitCommand { dir: dir.to_owned(), args }
}

fn command2(dir: &str, a: &str, b: &str) -> (r: GitCommand)
    ensures
        asks(r, dir@, seq![a@, b@]),
{
    let mut r = command1(dir, a);
    r.args.push(b.to_owned());
    assert(text::views(r.args@) =~= seq![a@, b@]);
    r
}

fn command3(dir: &str, a: &str, b: &str, c: &str) -> (r: GitCommand)
    ensures
        asks(r, dir@, seq![a@, b@, c@]),
{
    let mut r = command2(dir, a, b);
    r.args.push(c.to_owned());
    assert(text::views(r.args@) =~= seq![a@, b@, c@]);
    r
}

fn command4(dir: &str, a: &str, b: &str, c: &str, d: &str) -> (r: GitCommand)
    ensures
        asks(r, dir@, seq![a@, b@, c@, d@]),
{
    let mut r = command3(dir, a, b, c);
    r.args.push(d.to_owned());
    assert(text::views(r.args@) =~= seq![a@, b@, c@, d@]);
    r
}

/// The arguments that ask for the directory of the repository around.
pub fn toplevel_args() -> (r: Vec<String>)
    ensures
        text::views(r@) == seq!["rev-parse"@, "--show-toplevel"@],
{
    let mut args: Vec<String> = Vec::new();
    args.push("rev-parse".to_owned());
    args.push("--show-toplevel".to_owned());
    assert(text::views(args@) =~= seq!["rev-parse"@, "--show-toplevel"@]);
    args
}

/// Whether there is a repository around, from what git said of its
/// directory.
pub fn is_git_repo(toplevel: &GitRun) -> (r: bool)
    ensures
        r == (toplevel is Done),
{
    match toplevel {
        GitRun::Done { stdout } => true,
        _ => false,
    }
}

/// What a run gave: its output, or what went wrong.
pub open spec fn answered(args: Seq<Seq<char>>, run: GitRun) -> Result<Seq<char>, Seq<char>> {
    match run {
        GitRun::Done { stdout } => Ok(stdout@),
        GitRun::Failed { stderr } => Err(
            "git "@ + pieces::join(args, " "@) + ": "@ + text::trim(stderr@),
        ),
        GitRun::NotStarted { error } => Err("failed to run git: "@ + error@),
    }
}

pub open spec fn result_texts(r: Result<String, String>) -> Result<Seq<char>, Seq<char>> {
    match r {
        Ok(s) => Ok(s@),
        Err(e) => Err(e@),
    }
}

/// What a run gave: its output, or what went wrong.
pub fn answer(args: &Vec<String>, run: GitRun) -> (r: Result<String, String>)
    ensures
        result_texts(r) == answered(text::views(args@), run),
{
    match run {
        GitRun::Done { stdout } => Ok(stdout),
        GitRun::Failed { stderr } => {
            let mut s = "git ".to_owned();
            s.append(join_with(args, " ").as_str());
            s.append(": ");
            s.append(trimmed(stderr.as_str()).as_str());
            Err(s)
        },
        GitRun::NotStarted { error } => {
            let mut s = "failed to run git: ".to_owned();
            s.append(error.as_str());
            Err(s)
        },
    }
}

impl GitRepo {
    /// The repository around, from what git said of its directory.
    pub fn open(toplevel: &GitRun) -> (r: Option<GitRepo>)
        ensures
            match (r, toplevel) {
                (Some(repo), GitRun::Done { stdout }) => repo.root@ == text::trim(stdout@),
                (None, GitRun::Done { stdout }) => false,
                (Some(_), _) => false,
                (None, _) => true,
            },
    {
        match toplevel {
            GitRun::Done { stdout } => Some(GitRepo { root: trimmed(stdout.as_str()) }),
            _ => None,
        }
    }

    /// Asks for the commit that a task starts from. Nothing is committed.
    pub fn checkpoint(&self, _task_summary: &str) -> (r: GitCommand)
        ensures
            asks(r, self.root@, seq!["rev-parse"@, "HEAD"@]),
    {
        command2(self.root.as_str(), "rev-parse", "HEAD")
    }

    /// Goes back to the `n`th checkpoint, newest first and counted from one;
    /// to the oldest where there are fewer.
    pub fn undo(&self, checkpoints: &Vec<CheckpointInfo>, n: usize) -> (r: Result<
        GitCommand,
        String,
    >)
        ensures
            match r {
                Ok(c) => checkpoints.len() > 0 && asks(
                    c,
                    self.root@,
                    seq!["reset"@, "--hard"@, checkpoints@[nth(n as int, checkpoints@.len() as int)].hash@],
                ),
                Err(e) => checkpoints.len() == 0 && e@ == "no parecode checkpoints found"@,
            },
    {
        if checkpoints.len() == 0 {
            return Err("no parecode checkpoints found".to_owned());
        }
        let last: usize = checkpoints.len() - 1;
        let wanted: usize = n.saturating_sub(1);
        let i: usize = if wanted < last {
            wanted
        } else {
            last
        };
        Ok(command3(self.root.as_str(), "reset", "--hard", checkpoints[i].hash.as_str()))
    }

    /// Asks which files changed since a commit.
    pub fn diff_stat_from(&self, ref_hash: &str) -> (r: GitCommand)
        ensures
            asks(r, self.root@, seq!["diff"@, ref_hash@, "--stat"@]),
    {
        command3(self.root.as_str(), "diff", ref_hash, "--stat")
    }

    /// Asks what changed since a commit.
    pub fn diff_full_from(&self, ref_hash: &str) -> (r: GitCommand)
        ensures
            asks(r, self.root@, seq!["diff"@, ref_hash@]),
    {
        command2(self.root.as_str(), "diff", ref_hash)
    }

    /// Asks which files have changes that are not committed.
    pub fn _diff_stat(&self) -> (r: GitCommand)
        ensures
            asks(r, self.root@, seq!["diff"@, "HEAD"@, "--stat"@]),
    {
        command3(self.root.as_str(), "diff", "HEAD", "--stat")
    }

    /// Asks for the changes that are not committed.
    pub fn _diff_full(&self) -> (r: GitCommand)
        ensures
            asks(r, self.root@, seq!["diff"@, "HEAD"@]),
    {
        command2(self.root.as_str(), "diff", "HEAD")
    }

    /// Commits everything: the second command runs where the first went well.
    pub fn auto_commit(&self, message: &str) -> (r: (GitCommand, GitCommand))
        ensures
            asks(r.0, self.root@, seq!["add"@, "-A"@]),
            asks(r.1, self.root@, seq!["commit"@, "--no-verify"@, "-m"@, message@]),
    {
        (
            command2(self.root.as_str(), "add", "-A"),
            command4(self.root.as_str(), "commit", "--no-verify", "-m", message),
        )
    }

    /// Asks for the state of the working tree.
    pub fn status_short(&self) -> (r: GitCommand)
        ensures
            asks(r, self.root@, seq!["status"@, "--short"@]),
    {
        command2(self.root.as_str(), "status", "--short")
    }

    /// Asks for the newest checkpoints.
    pub fn list_checkpoints(&self) -> (r: GitCommand)
        ensures
            asks(
                r,
                self.root@,
                seq!["log"@, "--format=%H|%h|%s|%ct"@, "--grep=parecode: checkpoint"@, "-20"@],
            ),
    {
        command4(
            self.root.as_str(),
            "log",
            "--format=%H|%h|%s|%ct",
            "--grep=parecode: checkpoint",
            "-20",
        )
    }
}

/// The place of the `n`th of `len`, counted from one, or the last.
pub open spec fn nth(n: int, len: int) -> int {
    let wanted = if n > 0 {
        n - 1
    } else {
        0
    };
    if wanted < len - 1 {
        wanted
    } else {
        len - 1
    }
}

/// The hash that a checkpoint's answer holds.
pub fn checkpoint_hash(out: &str) -> (r: String)
    ensures
        r@ == text::trim(out@),
{
    trimmed(out)
}

/// The first ten lines of a state.
pub open spec fn first_ten(out: Seq<char>) -> Seq<char> {
    let ls = pieces::lines(out);
    if ls.len() <= 10 {
        out
    } else {
        pieces::join(ls.take(10), "\n"@) + "\n... ("@ + number::decimal((ls.len() - 10) as nat)
            + " more files)"@
    }
}

/// The state of the working tree for a prompt: ten lines at most.
pub fn short_status(out: &str) -> (r: String)
    ensures
        r@ == first_ten(out@),
{
    let ls = lines_of(out);
    let ghost lv = text::views(ls@);
    assert(lv.len() == ls@.len());
    if ls.len() <= 10 {
        return out.to_owned();
    }
    let mut head: Vec<String> = Vec::new();
    let mut i: usize = 0;
    while i < 10
        invariant
            i <= 10 < ls.len(),
            head.len() == i,
            lv == text::views(ls@),
            forall|k: int| 0 <= k < i ==> (#[trigger] head@[k])@ == lv[k],
        decreases 10 - i,
    {
        head.push(ls[i].clone());
        i += 1;
    }
    assert(text::views(head@) =~= lv.take(10));
    let mut s = join_with(&head, "\n");
    s.append("\n... (");
    s.append(decimal_usize(ls.len() - 10).as_str());
    s.append(" more files)");
    s
}

/// What stands before the last bar of a text, and behind it.
pub open spec fn split_at_last_bar(s: Seq<char>) -> Option<(Seq<char>, Seq<char>)> {
    match text::last_of(s, CharSet::OneOf("|")) {
        Some(i) => Some((s.take(i), s.skip(i + 1))),
        None => None,
    }
}

/// A checkpoint out of a line `hash|short|message|time`: the hashes stand in
/// front, the time at the end, and the message, which may hold bars, between
/// them. A time that is no number counts as zero.
pub open spec fn checkpoint_in(line: Seq<char>) -> Option<CheckpointView> {
    match pieces::split_once(line, "|"@) {
        Some((hash, r1)) => match pieces::split_once(r1, "|"@) {
            Some((short_hash, r2)) => match split_at_last_bar(r2) {
                Some((message, time)) => Some(
                    CheckpointView {
                        hash,
                        short_hash,
                        message,
                        timestamp: match number::parsed(
                            text::trim(time),
                            i64::MIN as int,
                            i64::MAX as int,
                        ) {
                            Some(n) => n,
                            None => 0,
                        },
                    },
                ),
                None => None,
            },
            None => None,
        },
        None => None,
    }
}

proof fn last_bar(a: Seq<char>, b: Seq<char>)
    requires
        !b.contains('|'),
    ensures
        text::last_of(a + "|"@ + b, CharSet::OneOf("|")) == Some(a.len() as int),
    decreases b.len(),
{
    reveal_strlit("|");
    let s = a + "|"@ + b;
    assert("|"@[0] == '|');
    if b.len() == 0 {
        assert(s.last() == '|');
        assert("|"@.contains(s.last()));
    } else {
        assert(s.last() == b.last());
        assert(b.contains(b[b.len() - 1]));
        assert forall|i: int| 0 <= i < b.drop_last().len() implies b.drop_last()[i] != '|' by {
            assert(b.contains(b[i]));
        }
        last_bar(a, b.drop_last());
        assert(s.drop_last() =~= a + "|"@ + b.drop_last());
    }
}

/// A line that git wrote reads back as what it was made of, whatever the
/// message holds.
pub proof fn checkpoint_reads_back(
    hash: Seq<char>,
    short_hash: Seq<char>,
    message: Seq<char>,
    time: Seq<char>,
)
    requires
        !text::contains(hash, "|"@),
        !text::contains(short_hash, "|"@),
        !time.contains('|'),
        number::parsed(text::trim(time), i64::MIN as int, i64::MAX as int) is Some,
    ensures
        checkpoint_in(hash + "|"@ + (short_hash + "|"@ + (message + "|"@ + time))) == Some(
            CheckpointView {
                hash,
                short_hash,
                message,
                timestamp: number::parsed(text::trim(time), i64::MIN as int, i64::MAX as int)->0,
            },
        ),
{
    reveal_strlit("|");
    let r2 = message + "|"@ + time;
    pieces::split_at_sign(short_hash, "|"@, r2);
    pieces::split_at_sign(hash, "|"@, short_hash + "|"@ + r2);
    last_bar(message, time);
    assert(r2.take(message.len() as int) =~= message);
    assert(r2.skip(message.len() as int + 1) =~= time);
}

pub open spec fn checkpoints_in(ls: Seq<Seq<char>>) -> Seq<CheckpointView>
    decreases ls.len(),
{
    if ls.len() == 0 {
        Seq::empty()
    } else {
        let rest = checkpoints_in(ls.drop_last());
        match checkpoint_in(ls.last()) {
            Some(c) => rest.push(c),
            None => rest,
        }
    }
}

fn read_checkpoint(line: &str) -> (r: Option<CheckpointInfo>)
    ensures
        match r {
            Some(c) => checkpoint_in(line@) == Some(c@),
            None => checkpoint_in(line@) is None,
        },
{
    match split_first(line, "|") {
        Some((hash, r1)) => match split_first(r1.as_str(), "|") {
            Some((short_hash, r2)) => match rfind_set(r2.as_str(), CharSet::OneOf("|")) {
                Some(at) => {
                    let message = cut(r2.as_str(), 0, at);
                    let time = without_first(r2.as_str(), at + 1);
                    assert(message@ =~= r2@.take(at as int));
                    let timestamp: i64 = match parse_i64(trimmed(time.as_str()).as_str()) {
                        Some(n) => n,
                        None => 0,
                    };
                    Some(CheckpointInfo { hash, short_hash, message, timestamp })
                },
                None => None,
            },
            None => None,
        },
        None => None,
    }
}

/// The checkpoints that git listed. Lines of another form do not count.
pub fn parse_checkpoints(out: &str) -> (r: Vec<CheckpointInfo>)
    ensures
        checkpoint_views(r@) == checkpoints_in(pieces::lines(out@)),
{
    let ls = lines_of(out);
    let ghost lv = text::views(ls@);
    let mut found: Vec<CheckpointInfo> = Vec::new();
    let mut i: usize = 0;
    assert(lv.take(0) =~= Seq::<Seq<char>>::empty());
    assert(checkpoint_views(found@) =~= Seq::<CheckpointView>::empty());
    while i < ls.len()
        invariant
            i <= ls.len(),
            lv == text::views(ls@),
            checkpoint_views(found@) == checkpoints_in(lv.take(i as int)),
        decreases ls.len() - i,
    {
        assert(lv.take(i + 1).drop_last() =~= lv.take(i as int));
        assert(lv.take(i + 1).last() == ls@[i as int]@);
        match read_checkpoint(ls[i].as_str()) {
            Some(c) => {
                let ghost before = checkpoint_views(found@);
                found.push(c);
                assert(checkpoint_views(found@) =~= before.push(c@));
            },
            None => {},
        }
        i += 1;
    }
    assert(lv.take(i as int) =~= lv);
    found
}

/// Checkpoints are counted from the newest, which is the first; a number
/// beyond the last means the last.
pub proof fn checkpoints_count_from_one(n: int, len: int)
    requires
        0 <= n,
        0 < len,
    ensures
        1 <= n <= len ==> nth(n, len) == n - 1,
        n == 0 ==> nth(n, len) == 0,
        n > len ==> nth(n, len) == len - 1,
{
}

/// Up to ten lines are shown whole; of more the first ten are, and how many
/// are left out.
pub proof fn first_ten_are_shown(out: Seq<char>)
    ensures
        ({
            let ls = pieces::lines(out);
            &&& ls.len() <= 10 ==> first_ten(out) == out
            &&& ls.len() > 10 ==> first_ten(out) == pieces::join(ls.subrange(0, 10), "\n"@)
                + "\n... ("@ + number::decimal((ls.len() - 10) as nat) + " more files)"@
        }),
{
}

/// The checkpoints are those of the lines that tell of one, in their order.
pub proof fn checkpoints_are_of_the_lines(ls: Seq<Seq<char>>)
    ensures
        checkpoints_in(ls) == ls.map_values(|l: Seq<char>| checkpoint_in(l)).filter(
            |c: Option<CheckpointView>| c is Some,
        ).map_values(|c: Option<CheckpointView>| c->0),
    decreases ls.len(),
{
    reveal(Seq::filter);
    let f = |l: Seq<char>| checkpoint_in(l);
    let some = |c: Option<CheckpointView>| c is Some;
    let got = |c: Option<CheckpointView>| c->0;
    if ls.len() > 0 {
        let t = ls.drop_last();
        checkpoints_are_of_the_lines(t);
        assert(ls.map_values(f).drop_last() =~= t.map_values(f));
        let a = t.map_values(f).filter(some);
        let x = f(ls.last());
        assert(a.push(x).map_values(got) =~= a.map_values(got).push(got(x)));
    } else {
        assert(ls.map_values(f) =~= Seq::empty());
        assert(ls.map_values(f).filter(some).map_values(got) =~= Seq::empty());
    }
}

/// What git printed is its answer where it succeeded; where it did not, or
/// could not be run, the answer is an error that tells why.
pub proof fn git_answers_or_fails(args: Seq<Seq<char>>, run: GitRun)
    ensures
        answered(args, run) is Ok <==> run is Done,
        run matches GitRun::Done { stdout } ==> answered(args, run) == Ok::<Seq<char>, Seq<char>>(
            stdout@,
        ),
        run matches GitRun::Failed { stderr } ==> (answered(args, run) matches Err(e) && text::ends(
            e,
            text::trim(stderr@),
        )),
        run matches GitRun::NotStarted { error } ==> (answered(args, run) matches Err(e) && text::ends(
            e,
            error@,
        )),
{
    match run {
        GitRun::Done { stdout } => {},
        GitRun::Failed { stderr } => {
            let t = text::trim(stderr@);
            let e = "git "@ + pieces::join(args, " "@) + ": "@ + t;
            assert(e.subrange(e.len() - t.len(), e.len() as int) =~= t);
        },
        GitRun::NotStarted { error } => {
            let e = "failed to run git: "@ + error@;
            assert(e.subrange(e.len() - error@.len(), e.len() as int) =~= error@);
        },
    }
}

} // verus!
