//! Sessions: which files hold them, and which one is meant.

use crate::clock::now;
use crate::number;
use crate::number::signed_of;
use crate::order;
use crate::order::{comes_before, sort_by};
use crate::paths;
use crate::paths::{extension_of, name_of, path_below};
use crate::pieces;
use crate::pieces::{lines_of, trim_back_text};
use crate::text;
use crate::text::{count, finishes_with, same, trimmed};
use vstd::prelude::*;

verus! {

broadcast use crate::text::views_push;

/// One exchange of the user with the agent.
#[derive(Debug)]
pub struct ConversationTurn {
    /// Counts from zero within the session.
    pub turn_index: usize,
    /// Unix time at which the turn ended.
    pub timestamp: i64,
    pub user_message: String,
    pub agent_response: String,
    /// The tools that were called.
    pub tool_summary: String,
}

/// What a `ConversationTurn` says.
#[verifier::ext_equal]
pub struct TurnView {
    pub turn_index: nat,
    pub timestamp: int,
    pub user_message: Seq<char>,
    pub agent_response: Seq<char>,
    pub tool_summary: Seq<char>,
}

impl View for ConversationTurn {
    type V = TurnView;

    open spec fn view(&self) -> TurnView {
        TurnView {
            turn_index: self.turn_index as nat,
            timestamp: self.timestamp as int,
            user_message: self.user_message@,
            agent_response: self.agent_response@,
            tool_summary: self.tool_summary@,
        }
    }
}

impl Clone for ConversationTurn {
    fn clone(&self) -> (r: Self)
        ensures
            r@ == self@,
    {
        ConversationTurn {
            turn_index: self.turn_index,
            timestamp: self.timestamp,
            user_message: self.user_message.clone(),
            agent_response: self.agent_response.clone(),
            tool_summary: self.tool_summary.clone(),
        }
    }
}

pub open spec fn turn_views(v: Seq<ConversationTurn>) -> Seq<TurnView> {
    Seq::new(v.len(), |i: int| v[i]@)
}

/// A session.
#[derive(Debug)]
pub struct Session {
    pub id: String,
    /// The directory that it was started in.
    pub _cwd: String,
    /// All turns, those that were taken back among them.
    pub _turns: Vec<ConversationTurn>,
    /// The turns up to this one are live.
    pub active_turn: usize,
    /// The file that holds it.
    pub path: String,
}

// ── Names ────────────────────────────────────────────────────────────────────

/// The directory of the sessions.
pub open spec fn dir_of_sessions(
    data_home: Option<Seq<char>>,
    home: Option<Seq<char>>,
) -> Seq<char> {
    let base = match data_home {
        Some(d) => d,
        None => paths::below(
            match home {
                Some(h) => h,
                None => Seq::empty(),
            },
            ".local/share"@,
        ),
    };
    paths::below(base, "parecode/sessions"@)
}

pub open spec fn opt_str(o: Option<&str>) -> Option<Seq<char>> {
    match o {
        Some(s) => Some(s@),
        None => None,
    }
}

/// The directory of the sessions, from `XDG_DATA_HOME` and `HOME`.
pub fn sessions_dir(data_home: Option<&str>, home: Option<&str>) -> (r: String)
    ensures
        r@ == dir_of_sessions(opt_str(data_home), opt_str(home)),
{
    let base = match data_home {
        Some(d) => d.to_owned(),
        None => match home {
            Some(h) => path_below(h, ".local/share"),
            None => {
                let s = path_below("", ".local/share");
                proof {
                    reveal_strlit("");
                    assert(""@ =~= Seq::<char>::empty());
                }
                s
            },
        },
    };
    path_below(base.as_str(), "parecode/sessions")
}

pub open spec fn basename(cwd: Seq<char>) -> Seq<char> {
    match paths::name(cwd) {
        Some(n) => n,
        None => "unknown"@,
    }
}

/// The name of a directory.
pub fn cwd_basename(cwd: &str) -> (r: String)
    ensures
        r@ == basename(cwd@),
{
    match name_of(cwd) {
        Some(n) => n,
        None => "unknown".to_owned(),
    }
}

/// The id of a session that starts at a time in a directory.
pub open spec fn session_id(ts: int, cwd: Seq<char>) -> Seq<char> {
    number::signed(ts) + "_"@ + basename(cwd)
}

pub open spec fn session_file(dir: Seq<char>, id: Seq<char>) -> Seq<char> {
    paths::below(dir, id + ".jsonl"@)
}

// ── The list ─────────────────────────────────────────────────────────────────

/// The order of names, last first.
pub open spec fn last_first() -> spec_fn(Seq<char>, Seq<char>) -> bool {
    |a: Seq<char>, b: Seq<char>| order::not_after(b, a)
}

pub open spec fn session_names(names: Seq<Seq<char>>) -> Seq<Seq<char>>
    decreases names.len(),
{
    if names.len() == 0 {
        Seq::empty()
    } else if paths::extension(names.last()) == "jsonl"@ {
        session_names(names.drop_last()).push(names.last())
    } else {
        session_names(names.drop_last())
    }
}

/// The sessions among the files of a directory, newest first: the id and
/// the file of each.
pub open spec fn listed_sessions(
    dir: Seq<char>,
    names: Seq<Seq<char>>,
) -> Seq<(Seq<char>, Seq<char>)> {
    let sorted = order::sorted_by(session_names(names), last_first());
    Seq::new(
        sorted.len(),
        |i: int| (pieces::trim_end_text(sorted[i], ".jsonl"@), paths::below(dir, sorted[i])),
    )
}

pub open spec fn pair_views(v: Seq<(String, String)>) -> Seq<(Seq<char>, Seq<char>)> {
    Seq::new(v.len(), |i: int| (v[i].0@, v[i].1@))
}

/// The sessions among the files of a directory, newest first.
pub fn list_sessions(dir: &str, names: &Vec<String>) -> (r: Vec<(String, String)>)
    ensures
        pair_views(r@) == listed_sessions(dir@, text::views(names@)),
{
    let ghost nv = text::views(names@);
    let mut files: Vec<String> = Vec::new();
    let mut i: usize = 0;
    proof {
        text::views_empty();
        assert(nv.take(0) =~= Seq::<Seq<char>>::empty());
    }
    while i < names.len()
        invariant
            i <= names.len(),
            nv == text::views(names@),
            text::views(files@) == session_names(nv.take(i as int)),
        decreases names.len() - i,
    {
        assert(nv.take(i + 1).drop_last() =~= nv.take(i as int));
        assert(nv.take(i + 1).last() == names@[i as int]@);
        if same(extension_of(names[i].as_str()).as_str(), "jsonl") {
            files.push(names[i].clone());
        }
        i += 1;
    }
    assert(nv.take(i as int) =~= nv);
    let ghost before = files@;
    let le = |a: &String, b: &String| -> (r: bool)
        ensures r == order::not_after(b@, a@)
        {
            !comes_before(a.as_str(), b.as_str())
        };
    let ghost rel = |a: String, b: String| order::not_after(b@, a@);
    sort_by(&mut files, le, Ghost(rel));
    proof {
        let f = |s: String| s@;
        order::sorted_map(before, |s: String| true, f, rel, last_first());
        assert(before.map_values(f) =~= text::views(before));
        assert(files@.map_values(f) =~= text::views(files@));
    }
    let ghost sorted = text::views(files@);
    let mut out: Vec<(String, String)> = Vec::new();
    let mut j: usize = 0;
    proof {
        reveal_strlit(".jsonl");
    }
    while j < files.len()
        invariant
            j <= files.len(),
            out.len() == j,
            sorted == text::views(files@),
            ".jsonl"@.len() > 0,
            forall|k: int|
                0 <= k < j ==> (#[trigger] out@[k]).0@ == pieces::trim_end_text(
                    sorted[k],
                    ".jsonl"@,
                ) && out@[k].1@ == paths::below(dir@, sorted[k]),
        decreases files.len() - j,
    {
        let id = trim_back_text(files[j].as_str(), ".jsonl");
        out.push((id, path_below(dir, files[j].as_str())));
        j += 1;
    }
    assert(pair_views(out@) =~= listed_sessions(dir@, nv));
    out
}

/// The list is in order: a session comes before those that are older.
pub proof fn list_is_newest_first(names: Seq<Seq<char>>, i: int, j: int)
    requires
        0 <= i < j < session_names(names).len(),
    ensures
        ({
            let sorted = order::sorted_by(session_names(names), last_first());
            order::not_after(sorted[j], sorted[i])
        }),
{
    let le = last_first();
    order::by_chars_sorts();
    let up = order::by_chars();
    assert(order::sorts(le)) by {
        assert forall|a: Seq<char>, b: Seq<char>| #[trigger] le(a, b) || le(b, a) by {
            assert(up(a, b) || up(b, a));
        }
        assert forall|a: Seq<char>, b: Seq<char>, c: Seq<char>| #[trigger] le(a, b) && #[trigger] le(
            b,
            c,
        ) implies le(a, c) by {
            assert(up(c, b) && up(b, a));
        }
    }
    order::sorted_is_sorted(session_names(names), le);
    let sorted = order::sorted_by(session_names(names), le);
    assert(le(sorted[i], sorted[j]));
}

/// The place of the first session of a directory.
pub open spec fn first_of_cwd(ss: Seq<(Seq<char>, Seq<char>)>, cwd: Seq<char>) -> Option<
    (Seq<char>, Seq<char>),
>
    decreases ss.len(),
{
    if ss.len() == 0 {
        None
    } else if text::ends(ss[0].0, "_"@ + basename(cwd)) {
        Some(ss[0])
    } else {
        first_of_cwd(ss.skip(1), cwd)
    }
}

/// The newest session of a directory, out of a list with the newest first.
pub fn find_latest_for_cwd(sessions: &Vec<(String, String)>, cwd: &str) -> (r: Option<
    (String, String),
>)
    ensures
        match r {
            Some(s) => first_of_cwd(pair_views(sessions@), cwd@) == Some((s.0@, s.1@)),
            None => first_of_cwd(pair_views(sessions@), cwd@) is None,
        },
{
    let ghost ss = pair_views(sessions@);
    let mut suffix = "_".to_owned();
    suffix.append(cwd_basename(cwd).as_str());
    let mut i: usize = 0;
    assert(ss.skip(0) =~= ss);
    while i < sessions.len()
        invariant
            i <= sessions.len(),
            ss == pair_views(sessions@),
            suffix@ == "_"@ + basename(cwd@),
            first_of_cwd(ss, cwd@) == first_of_cwd(ss.skip(i as int), cwd@),
        decreases sessions.len() - i,
    {
        assert(ss.skip(i as int)[0] == (sessions@[i as int].0@, sessions@[i as int].1@));
        assert(ss.skip(i as int).skip(1) =~= ss.skip(i + 1));
        if finishes_with(sessions[i].0.as_str(), suffix.as_str()) {
            return Some((sessions[i].0.clone(), sessions[i].1.clone()));
        }
        i += 1;
    }
    None
}

/// A session that was begun in a directory is found there again, unless a
/// newer one of the same name is.
pub proof fn own_session_is_found(
    ss: Seq<(Seq<char>, Seq<char>)>,
    cwd: Seq<char>,
    ts: int,
    k: int,
)
    requires
        0 <= k < ss.len(),
        ss[k].0 == session_id(ts, cwd),
    ensures
        exists|i: int| 0 <= i <= k && first_of_cwd(ss, cwd) == Some(#[trigger] ss[i]),
    decreases k,
{
    if text::ends(ss[0].0, "_"@ + basename(cwd)) {
        assert(first_of_cwd(ss, cwd) == Some(ss[0]));
    } else if k > 0 {
        own_session_is_found(ss.skip(1), cwd, ts, k - 1);
        let i = choose|i: int|
            0 <= i <= k - 1 && first_of_cwd(ss.skip(1), cwd) == Some(#[trigger] ss.skip(1)[i]);
        assert(ss[i + 1] == ss.skip(1)[i]);
    } else {
        let id = session_id(ts, cwd);
        let suffix = "_"@ + basename(cwd);
        assert(id.subrange(id.len() - suffix.len(), id.len() as int) =~= suffix);
    }
}

// ── Pruning ──────────────────────────────────────────────────────────────────

/// How many of the first `n` sessions hold something.
pub open spec fn filled(ss: Seq<(Seq<char>, bool)>, n: int) -> nat
    decreases n,
{
    if n <= 0 {
        0
    } else {
        filled(ss, n - 1) + if ss[n - 1].1 {
            0nat
        } else {
            1
        }
    }
}

/// Whether a session goes: it is empty, or enough newer ones are not.
pub open spec fn goes(ss: Seq<(Seq<char>, bool)>, keep: int, i: int) -> bool {
    ss[i].1 || filled(ss, i) >= keep
}

/// The files among the first `n` that go.
pub open spec fn pruned(ss: Seq<(Seq<char>, bool)>, keep: int, n: int) -> Seq<Seq<char>>
    decreases n,
{
    if n <= 0 {
        Seq::empty()
    } else if goes(ss, keep, n - 1) {
        pruned(ss, keep, n - 1).push(ss[n - 1].0)
    } else {
        pruned(ss, keep, n - 1)
    }
}

pub open spec fn marked(v: Seq<(String, bool)>) -> Seq<(Seq<char>, bool)> {
    Seq::new(v.len(), |i: int| (v[i].0@, v[i].1))
}

/// The files that go, out of a list with the newest first that says of each
/// whether it is empty: all empty ones, and all behind the first `keep`
/// others.
pub fn prune_old_sessions(sessions: &Vec<(String, bool)>, keep: usize) -> (r: Vec<String>)
    ensures
        text::views(r@) == pruned(marked(sessions@), keep as int, sessions@.len() as int),
{
    let ghost ss = marked(sessions@);
    let mut out: Vec<String> = Vec::new();
    let mut kept: usize = 0;
    let mut i: usize = 0;
    proof {
        text::views_empty();
    }
    while i < sessions.len()
        invariant
            i <= sessions.len(),
            kept <= i,
            ss == marked(sessions@),
            kept == filled(ss, i as int),
            text::views(out@) == pruned(ss, keep as int, i as int),
        decreases sessions.len() - i,
    {
        assert(ss[i as int] == (sessions@[i as int].0@, sessions@[i as int].1));
        if sessions[i].1 {
            out.push(sessions[i].0.clone());
        } else {
            if kept >= keep {
                out.push(sessions[i].0.clone());
            }
            kept += 1;
        }
        i += 1;
    }
    out
}

/// How many of the first `n` sessions stay.
pub open spec fn stay(ss: Seq<(Seq<char>, bool)>, keep: int, n: int) -> nat
    decreases n,
{
    if n <= 0 {
        0
    } else {
        stay(ss, keep, n - 1) + if goes(ss, keep, n - 1) {
            0nat
        } else {
            1
        }
    }
}

/// As many sessions stay as are to be kept, or as hold something, if those
/// are fewer.
pub proof fn enough_stay(ss: Seq<(Seq<char>, bool)>, keep: int, n: int)
    requires
        keep >= 0,
    ensures
        stay(ss, keep, n) == (if filled(ss, n) < keep {
            filled(ss, n) as int
        } else {
            keep
        }),
    decreases n,
{
    if n > 0 {
        enough_stay(ss, keep, n - 1);
    }
}

/// A session that stays holds something, and none that stays is older than
/// one that holds something and goes.
pub proof fn newest_stay(ss: Seq<(Seq<char>, bool)>, keep: int, i: int, j: int)
    requires
        0 <= i < j < ss.len(),
        !goes(ss, keep, j),
    ensures
        !ss[j].1,
        !ss[i].1 ==> !goes(ss, keep, i),
{
    filled_grows(ss, i, j);
}

proof fn filled_grows(ss: Seq<(Seq<char>, bool)>, i: int, j: int)
    requires
        0 <= i <= j,
    ensures
        filled(ss, i) <= filled(ss, j),
    decreases j - i,
{
    if i < j {
        filled_grows(ss, i, j - 1);
    }
}

// ── Opening ──────────────────────────────────────────────────────────────────

/// A new session in a directory at a time.
pub fn session_at(dir: &str, cwd: &str, ts: i64) -> (r: Session)
    ensures
        r.id@ == session_id(ts as int, cwd@),
        r._cwd@ == cwd@,
        r._turns@.len() == 0,
        r.active_turn == 0,
        r.path@ == session_file(dir@, session_id(ts as int, cwd@)),
{
    let mut id = signed_of(ts);
    id.append("_");
    id.append(cwd_basename(cwd).as_str());
    let mut file = id.clone();
    file.append(".jsonl");
    Session {
        id,
        _cwd: cwd.to_owned(),
        _turns: Vec::new(),
        active_turn: 0,
        path: path_below(dir, file.as_str()),
    }
}

/// A new session in a directory.
pub fn new_session(dir: &str, cwd: &str) -> (r: Session)
    ensures
        exists|ts: int| #[trigger] session_id(ts, cwd@) == r.id@,
        r._cwd@ == cwd@,
        r._turns@.len() == 0,
        r.active_turn == 0,
        r.path@ == session_file(dir@, r.id@),
{
    session_at(dir, cwd, now())
}

/// The session of a directory with the turns that its file holds, or a new
/// one. `latest` is what was found of it.
pub fn open_session(
    dir: &str,
    cwd: &str,
    latest: Option<(String, String, Vec<ConversationTurn>)>,
) -> (r: Session)
    ensures
        r._cwd@ == cwd@,
        match latest {
            Some((id, path, turns)) => r.id@ == id@ && r.path@ == path@ && r._turns@ == turns@
                && r.active_turn == (if turns@.len() > 0 {
                turns@.len() - 1
            } else {
                0
            }),
            None => r._turns@.len() == 0 && r.active_turn == 0 && r.path@ == session_file(
                dir@,
                r.id@,
            ) && exists|ts: int| #[trigger] session_id(ts, cwd@) == r.id@,
        },
{
    match latest {
        Some((id, path, turns)) => {
            let n: usize = turns.len();
            let active_turn: usize = if n > 0 {
                n - 1
            } else {
                0
            };
            Session { id, _cwd: cwd.to_owned(), _turns: turns, active_turn, path }
        },
        None => new_session(dir, cwd),
    }
}

/// The lines of a file that hold records: those that are not blank.
pub open spec fn records_in(ls: Seq<Seq<char>>) -> Seq<Seq<char>>
    decreases ls.len(),
{
    if ls.len() == 0 {
        Seq::empty()
    } else if text::trim(ls.last()).len() > 0 {
        records_in(ls.drop_last()).push(ls.last())
    } else {
        records_in(ls.drop_last())
    }
}

/// The lines of a file that hold records.
pub fn record_lines(content: &str) -> (r: Vec<String>)
    ensures
        text::views(r@) == records_in(pieces::lines(content@)),
{
    let ls = lines_of(content);
    let ghost lv = text::views(ls@);
    let mut out: Vec<String> = Vec::new();
    let mut i: usize = 0;
    proof {
        text::views_empty();
        assert(lv.take(0) =~= Seq::<Seq<char>>::empty());
    }
    while i < ls.len()
        invariant
            i <= ls.len(),
            lv == text::views(ls@),
            text::views(out@) == records_in(lv.take(i as int)),
        decreases ls.len() - i,
    {
        assert(lv.take(i + 1).drop_last() =~= lv.take(i as int));
        assert(lv.take(i + 1).last() == ls@[i as int]@);
        if count(trimmed(ls[i].as_str()).as_str()) > 0 {
            out.push(ls[i].clone());
        }
        i += 1;
    }
    assert(lv.take(i as int) =~= lv);
    out
}

proof fn records_apart(a: Seq<Seq<char>>, b: Seq<Seq<char>>)
    ensures
        records_in(a + b) == records_in(a) + records_in(b),
    decreases b.len(),
{
    if b.len() == 0 {
        assert(a + b =~= a);
        assert(records_in(a) + records_in(b) =~= records_in(a));
    } else {
        records_apart(a, b.drop_last());
        assert((a + b).drop_last() =~= a + b.drop_last());
        assert((a + b).last() == b.last());
        assert(records_in(a + b) =~= records_in(a) + records_in(b));
    }
}

/// A record that is appended on a line of its own is read behind those that
/// were there, as it was written.
pub proof fn appended_is_read(content: Seq<char>, record: Seq<char>)
    requires
        content.len() == 0 || content.last() == '\n',
        !record.contains('\n'),
        text::trim(record).len() > 0,
        record.last() != '\r',
    ensures
        records_in(pieces::lines(content + (record + "\n"@))) == records_in(
            pieces::lines(content),
        ).push(record),
{
    let none = Seq::<Seq<char>>::empty();
    let blank = Seq::<char>::empty();
    pieces::lines_apart(content, record + "\n"@);
    pieces::lines_in_front(record, blank);
    assert(record + "\n"@ =~= record + "\n"@ + blank);
    assert(pieces::lines(record + "\n"@) =~= seq![record]);
    records_apart(pieces::lines(content), seq![record]);
    assert(seq![record].drop_last() =~= none);
    assert(records_in(none) =~= none);
    assert(records_in(seq![record]) =~= seq![record]);
    assert(records_in(pieces::lines(content)) + seq![record] =~= records_in(
        pieces::lines(content),
    ).push(record));
}

/// The sessions are the files with the ending of one, in their order.
pub proof fn sessions_go_by_ending(names: Seq<Seq<char>>)
    ensures
        session_names(names) == names.filter(|n: Seq<char>| paths::extension(n) == "jsonl"@),
    decreases names.len(),
{
    reveal(Seq::filter);
    if names.len() > 0 {
        sessions_go_by_ending(names.drop_last());
    }
}

/// A session's file gives back the session's id.
pub proof fn file_gives_back_its_id(dir: Seq<char>, id: Seq<char>)
    requires
        id.len() > 0,
        !id.contains('/'),
        id != "."@,
        !text::ends(id, ".jsonl"@),
    ensures
        listed_sessions(dir, seq![id + ".jsonl"@]) == seq![(id, session_file(dir, id))],
{
    reveal_strlit(".jsonl");
    reveal_strlit(".");
    reveal_strlit("jsonl");
    let name = id + ".jsonl"@;
    assert(name =~= id + "."@ + "jsonl"@);
    paths::path_parts(Seq::empty(), id, "jsonl"@);
    reveal_with_fuel(session_names, 2);
    let one = seq![name];
    assert(one.drop_last() =~= Seq::empty());
    assert(session_names(one) =~= one);
    reveal_with_fuel(order::sorted_by, 2);
    assert(order::sorted_by(one, last_first()) =~= one) by {
        order::sorting_again(one, last_first());
    }
    let n = id.len() as int;
    assert(name.subrange(n, n + 6) =~= ".jsonl"@);
    assert(name.take(n) =~= id);
    reveal_with_fuel(pieces::trim_end_text, 2);
    assert(listed_sessions(dir, one) =~= seq![(id, session_file(dir, id))]);
}

/// The session of a directory is the first whose id ends with its name.
pub proof fn first_session_of_the_directory(
    ss: Seq<(Seq<char>, Seq<char>)>,
    cwd: Seq<char>,
    i: int,
)
    requires
        0 <= i <= ss.len(),
        forall|k: int| 0 <= k < i ==> !text::ends((#[trigger] ss[k]).0, "_"@ + basename(cwd)),
    ensures
        i == ss.len() ==> first_of_cwd(ss, cwd) is None,
        i < ss.len() && text::ends(ss[i].0, "_"@ + basename(cwd)) ==> first_of_cwd(ss, cwd) == Some(
            ss[i],
        ),
    decreases ss.len(),
{
    if i > 0 {
        let t = ss.skip(1);
        assert forall|k: int| 0 <= k < i - 1 implies !text::ends(
            (#[trigger] t[k]).0,
            "_"@ + basename(cwd),
        ) by {
            assert(t[k] == ss[k + 1]);
        }
        first_session_of_the_directory(t, cwd, i - 1);
        assert(!text::ends(ss[0].0, "_"@ + basename(cwd)));
        if i < ss.len() {
            assert(t[i - 1] == ss[i]);
        }
    }
}

proof fn filled_are_counted(ss: Seq<(Seq<char>, bool)>, n: int)
    requires
        0 <= n <= ss.len(),
    ensures
        filled(ss, n) == ss.take(n).filter(|s: (Seq<char>, bool)| !s.1).len(),
    decreases n,
{
    reveal(Seq::filter);
    if n > 0 {
        filled_are_counted(ss, n - 1);
        assert(ss.take(n).drop_last() =~= ss.take(n - 1));
        assert(ss.take(n).last() == ss[n - 1]);
    } else {
        assert(ss.take(0) =~= Seq::empty());
    }
}

/// A session goes if and only if it is empty or as many as are to be kept,
/// none of them empty, stand in front of it.
pub proof fn empty_and_old_sessions_go(ss: Seq<(Seq<char>, bool)>, keep: int, n: int)
    requires
        0 <= n <= ss.len(),
    ensures
        pruned(ss, keep, n) == Seq::new(n as nat, |i: int| i).filter(
            |i: int| ss[i].1 || ss.take(i).filter(|s: (Seq<char>, bool)| !s.1).len() >= keep,
        ).map_values(|i: int| ss[i].0),
    decreases n,
{
    reveal(Seq::filter);
    let all = Seq::new(n as nat, |i: int| i);
    let out = |i: int| ss[i].1 || ss.take(i).filter(|s: (Seq<char>, bool)| !s.1).len() >= keep;
    let show = |i: int| ss[i].0;
    if n > 0 {
        empty_and_old_sessions_go(ss, keep, n - 1);
        filled_are_counted(ss, n - 1);
        let t = Seq::new((n - 1) as nat, |i: int| i);
        assert(all.drop_last() =~= t);
        assert(all.last() == n - 1);
        let a = t.filter(out);
        assert(a.push(n - 1).map_values(show) =~= a.map_values(show).push(show(n - 1)));
    } else {
        assert(all =~= Seq::empty());
        assert(all.filter(out).map_values(show) =~= Seq::empty());
    }
}

/// The records are the lines that are not blank.
pub proof fn blank_lines_hold_no_record(ls: Seq<Seq<char>>)
    ensures
        records_in(ls) == ls.filter(|l: Seq<char>| text::trim(l).len() > 0),
    decreases ls.len(),
{
    reveal(Seq::filter);
    if ls.len() > 0 {
        blank_lines_hold_no_record(ls.drop_last());
    }
}

/// Sessions lie where the environment says, else below the home directory.
pub proof fn sessions_lie_below_home(data: Seq<char>, home: Seq<char>)
    requires
        data.len() > 0,
        data.last() != '/',
        home.len() > 0,
        home.last() != '/',
    ensures
        dir_of_sessions(Some(data), Some(home)) == data + "/parecode/sessions"@,
        dir_of_sessions(None, Some(home)) == home + "/.local/share/parecode/sessions"@,
{
    reveal_strlit("/");
    reveal_strlit("parecode/sessions");
    reveal_strlit("/parecode/sessions");
    reveal_strlit(".local/share");
    reveal_strlit("/.local/share/parecode/sessions");
    no_slash_at_end(data);
    no_slash_at_end(home);
    let b = home + "/"@ + ".local/share"@;
    assert(b.last() == 'e');
    no_slash_at_end(b);
    assert(data + "/"@ + "parecode/sessions"@ =~= data + "/parecode/sessions"@);
    assert(b + "/"@ + "parecode/sessions"@ =~= home + "/.local/share/parecode/sessions"@);
}

proof fn no_slash_at_end(s: Seq<char>)
    requires
        s.len() > 0,
        s.last() != '/',
    ensures
        !text::ends(s, "/"@),
{
    reveal_strlit("/");
    if text::ends(s, "/"@) {
        let n = s.len() as int;
        assert(s.subrange(n - 1, n)[0] == s.last());
    }
}

} // verus!
