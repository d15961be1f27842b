//! Files that were read, kept so that they need not be read again.

use crate::names::NameMap;
use crate::number;
use crate::number::{decimal_usize, padded_left};
use crate::paths;
use crate::paths::name_of;
use crate::pieces;
use crate::pieces::lines_of;
use crate::text;
use crate::text::holds;
use vstd::prelude::*;

verus! {

broadcast use crate::text::views_push;

/// Where a file lies on the disk, and when it last changed there, if that
/// is known, in nanoseconds.
#[derive(Debug)]
pub struct OnDisk {
    pub key: String,
    pub mtime: Option<i128>,
}

/// A file in the cache.
#[derive(Debug)]
pub struct Entry {
    pub lines: Vec<String>,
    /// All lines as a read shows them.
    pub full_output: String,
    pub turn: usize,
    pub mtime: Option<i128>,
}

/// What an `Entry` says.
#[verifier::ext_equal]
pub struct EntryView {
    pub lines: Seq<Seq<char>>,
    pub full_output: Seq<char>,
    pub turn: nat,
    pub mtime: Option<i128>,
}

impl View for Entry {
    type V = EntryView;

    open spec fn view(&self) -> EntryView {
        EntryView {
            lines: text::views(self.lines@),
            full_output: self.full_output@,
            turn: self.turn as nat,
            mtime: self.mtime,
        }
    }
}

/// The files that were read, by where they lie.
#[derive(Debug)]
pub struct FileCache {
    pub entries: NameMap<Entry>,
    pub current_turn: usize,
}

/// What a `FileCache` holds.
#[verifier::ext_equal]
pub struct CacheView {
    pub entries: Map<Seq<char>, EntryView>,
    pub turn: nat,
}

pub open spec fn entry_views(m: Map<Seq<char>, Entry>) -> Map<Seq<char>, EntryView> {
    Map::new(|k: Seq<char>| m.dom().contains(k), |k: Seq<char>| m[k]@)
}

impl View for FileCache {
    type V = CacheView;

    open spec fn view(&self) -> CacheView {
        CacheView { entries: entry_views(self.entries@), turn: self.current_turn as nat }
    }
}

/// A whole file that was read before.
#[derive(Debug)]
pub struct CacheHit {
    pub content: String,
    pub turns_ago: usize,
    pub total_lines: usize,
}

/// A window of a file that was read before.
#[derive(Debug)]
pub struct RangeHit {
    pub content: String,
    pub turns_ago: usize,
    pub range_lines: usize,
}

// ── Lines as a read shows them ───────────────────────────────────────────────

/// A line behind its number.
pub open spec fn numbered_line(n: int, line: Seq<char>) -> Seq<char> {
    number::pad_left(number::decimal(n as nat), 4) + " | "@ + line + "\n"@
}

/// A line behind its number.
pub fn format_line(n: usize, line: &str) -> (r: String)
    ensures
        r@ == numbered_line(n as int, line@),
{
    let mut out = padded_left(decimal_usize(n).as_str(), 4);
    out.append(" | ");
    out.append(line);
    out.append("\n");
    out
}

/// The lines from `from` on and before `to`, each behind its number.
pub open spec fn numbered(lines: Seq<Seq<char>>, from: int, to: int) -> Seq<char>
    decreases to - from,
{
    if to <= from {
        Seq::empty()
    } else {
        numbered(lines, from, to - 1) + numbered_line(to, lines[to - 1])
    }
}

fn push_numbered(out: &mut String, lines: &Vec<String>, from: usize, to: usize)
    requires
        from <= to <= lines.len(),
    ensures
        final(out)@ == old(out)@ + numbered(text::views(lines@), from as int, to as int),
{
    let ghost lv = text::views(lines@);
    let ghost before = out@;
    let mut i: usize = from;
    assert(before + numbered(lv, from as int, from as int) =~= before);
    while i < to
        invariant
            from <= i <= to <= lines.len(),
            lv == text::views(lines@),
            out@ == before + numbered(lv, from as int, i as int),
        decreases to - i,
    {
        out.append(format_line(i + 1, lines[i].as_str()).as_str());
        assert(lv[i as int] == lines@[i as int]@);
        assert(out@ =~= before + numbered(lv, from as int, i + 1));
        i += 1;
    }
}

/// A whole file as a read shows it.
pub open spec fn whole(path: Seq<char>, lines: Seq<Seq<char>>) -> Seq<char> {
    "["@ + path + "]\n\n"@ + numbered(lines, 0, lines.len() as int)
}

// ── What the cache does, as functions of its contents ────────────────────────

/// The contents with a file that was just read.
pub open spec fn with_file(
    c: CacheView,
    path: Seq<char>,
    key: Seq<char>,
    mtime: Option<i128>,
    lines: Seq<Seq<char>>,
) -> CacheView {
    CacheView {
        entries: c.entries.insert(
            key,
            EntryView { lines, full_output: whole(path, lines), turn: c.turn, mtime },
        ),
        turn: c.turn,
    }
}

/// Whether two known times of change differ.
pub open spec fn changed(now: Option<i128>, then_at: Option<i128>) -> bool {
    match (now, then_at) {
        (Some(a), Some(b)) => a != b,
        _ => false,
    }
}

/// The entry of a file that has not changed on the disk.
pub open spec fn fresh(c: CacheView, key: Seq<char>, mtime: Option<i128>) -> Option<EntryView> {
    if c.entries.dom().contains(key) && !changed(mtime, c.entries[key].mtime) {
        Some(c.entries[key])
    } else {
        None
    }
}

pub open spec fn turns_between(c: CacheView, e: EntryView) -> nat {
    if c.turn >= e.turn {
        (c.turn - e.turn) as nat
    } else {
        0
    }
}

/// The window of lines that a request for `start` up to `end` gets.
pub open spec fn window(total: int, start: int, end: int) -> Option<(int, int)> {
    let last = if total > 0 {
        total - 1
    } else {
        0
    };
    let s = if start < last {
        start
    } else {
        last
    };
    let e = if end < total {
        end
    } else {
        total
    };
    if s < e {
        Some((s, e))
    } else {
        None
    }
}

/// A window as a read from the cache shows it.
pub open spec fn window_text(
    path: Seq<char>,
    lines: Seq<Seq<char>>,
    start: int,
    end: int,
) -> Seq<char> {
    "["@ + path + " — lines "@ + number::decimal((start + 1) as nat) + "-"@ + number::decimal(
        end as nat,
    ) + " of "@ + number::decimal(lines.len()) + " (cached)]\n\n"@ + numbered(lines, start, end)
}

/// Whether a command names the file, by its whole path or by its name.
pub open spec fn mentions(command: Seq<char>, key: Seq<char>) -> bool {
    text::contains(command, key) || match paths::name(key) {
        Some(name) => text::contains(command, name),
        None => false,
    }
}

/// The entries that a command does not name.
pub open spec fn unmentioned(
    m: Map<Seq<char>, EntryView>,
    command: Seq<char>,
) -> Map<Seq<char>, EntryView> {
    Map::new(
        |k: Seq<char>| m.dom().contains(k) && !mentions(command, k),
        |k: Seq<char>| m[k],
    )
}

fn has_changed(now: Option<i128>, then_at: Option<i128>) -> (r: bool)
    ensures
        r == changed(now, then_at),
{
    match (now, then_at) {
        (Some(a), Some(b)) => a != b,
        _ => false,
    }
}

fn is_mentioned(command: &str, key: &str) -> (r: bool)
    ensures
        r == mentions(command@, key@),
{
    holds(command, key) || match name_of(key) {
        Some(name) => holds(command, name.as_str()),
        None => false,
    }
}

impl Default for FileCache {
    fn default() -> (r: Self)
        ensures
            r@ == (CacheView { entries: Map::empty(), turn: 0 }),
    {
        let r = FileCache { entries: NameMap::new(), current_turn: 0 };
        assert(entry_views(r.entries@) =~= Map::<Seq<char>, EntryView>::empty());
        r
    }
}

impl FileCache {
    /// Starts the next turn.
    pub fn next_turn(&mut self)
        requires
            old(self)@.turn < usize::MAX,
        ensures
            final(self)@ == (CacheView { turn: old(self)@.turn + 1, ..old(self)@ }),
    {
        self.current_turn = self.current_turn + 1;
    }

    fn fresh_entry(&self, at: &OnDisk) -> (r: Option<&Entry>)
        ensures
            match r {
                Some(e) => fresh(self@, at.key@, at.mtime) == Some(e@),
                None => fresh(self@, at.key@, at.mtime) is None,
            },
    {
        match self.entries.get(at.key.as_str()) {
            Some(e) => {
                assert(self@.entries[at.key@] == e@);
                if has_changed(at.mtime, e.mtime) {
                    None
                } else {
                    Some(e)
                }
            },
            None => None,
        }
    }

    /// A whole file that was read before, unless it has changed on the disk.
    pub fn check(&self, at: &OnDisk) -> (r: Option<CacheHit>)
        ensures
            match (r, fresh(self@, at.key@, at.mtime)) {
                (Some(hit), Some(e)) => hit.content@ == e.full_output && hit.turns_ago
                    == turns_between(self@, e) && hit.total_lines == e.lines.len(),
                (None, None) => true,
                _ => false,
            },
    {
        match self.fresh_entry(at) {
            Some(e) => {
                assert(e@.lines.len() == e.lines@.len());
                Some(
                    CacheHit {
                        content: e.full_output.clone(),
                        turns_ago: self.current_turn.saturating_sub(e.turn),
                        total_lines: e.lines.len(),
                    },
                )
            },
            None => None,
        }
    }

    /// A window of a file that was read before, unless it has changed on the
    /// disk. Lines count from zero, and `end` is the first not wanted.
    pub fn check_range(&self, path: &str, at: &OnDisk, start: usize, end: usize) -> (r: Option<
        RangeHit,
    >)
        ensures
            match fresh(self@, at.key@, at.mtime) {
                Some(e) => e.lines.len() <= usize::MAX && match (
                    r,
                    window(e.lines.len() as int, start as int, end as int),
                ) {
                    (Some(hit), Some((s, t))) => hit.content@ == window_text(path@, e.lines, s, t)
                        && hit.turns_ago == turns_between(self@, e) && hit.range_lines == t - s,
                    (None, None) => true,
                    _ => false,
                },
                None => r is None,
            },
    {
        match self.fresh_entry(at) {
            Some(e) => {
                assert(e@.lines.len() == e.lines@.len());
                let total: usize = e.lines.len();
                let last: usize = if total > 0 {
                    total - 1
                } else {
                    0
                };
                let s: usize = if start < last {
                    start
                } else {
                    last
                };
                let t: usize = if end < total {
                    end
                } else {
                    total
                };
                if s >= t {
                    return None;
                }
                let mut out = "[".to_owned();
                out.append(path);
                out.append(" — lines ");
                out.append(decimal_usize(s + 1).as_str());
                out.append("-");
                out.append(decimal_usize(t).as_str());
                out.append(" of ");
                out.append(decimal_usize(total).as_str());
                out.append(" (cached)]\n\n");
                push_numbered(&mut out, &e.lines, s, t);
                Some(
                    RangeHit {
                        content: out,
                        turns_ago: self.current_turn.saturating_sub(e.turn),
                        range_lines: t - s,
                    },
                )
            },
            None => None,
        }
    }

    /// Keeps a file that was just read.
    pub fn store(&mut self, path: &str, at: OnDisk, raw_content: String)
        ensures
            final(self)@ == with_file(
                old(self)@,
                path@,
                at.key@,
                at.mtime,
                pieces::lines(raw_content@),
            ),
    {
        let lines = lines_of(raw_content.as_str());
        self.store_lines(path, at, lines);
    }

    /// Keeps the lines of a file that was just read.
    pub fn store_lines(&mut self, path: &str, at: OnDisk, lines: Vec<String>)
        ensures
            final(self)@ == with_file(
                old(self)@,
                path@,
                at.key@,
                at.mtime,
                text::views(lines@),
            ),
    {
        let ghost before = self@;
        let ghost lv = text::views(lines@);
        assert(lv.len() == lines@.len());
        let mut out = "[".to_owned();
        out.append(path);
        out.append("]\n\n");
        push_numbered(&mut out, &lines, 0, lines.len());
        let e = Entry { lines, full_output: out, turn: self.current_turn, mtime: at.mtime };
        self.entries.insert(at.key, e);
        assert(entry_views(self.entries@) =~= before.entries.insert(at.key@, e@));
    }

    /// Forgets a file that was written.
    pub fn invalidate(&mut self, key: &str)
        ensures
            final(self)@ == (CacheView { entries: old(self)@.entries.remove(key@), ..old(self)@ }),
    {
        let ghost before = self@;
        self.entries.remove(key);
        assert(entry_views(self.entries@) =~= before.entries.remove(key@));
    }

    /// Forgets the files that a command names.
    pub fn invalidate_if_mentioned(&mut self, command: &str)
        ensures
            final(self)@ == (CacheView {
                entries: unmentioned(old(self)@.entries, command@),
                ..old(self)@
            }),
    {
        let ghost before = self@;
        let total: usize = self.entries.len();
        let ghost keys = self.entries.names();
        let mut gone: Vec<String> = Vec::new();
        let mut i: usize = 0;
        proof {
            text::views_empty();
        }
        while i < total
            invariant
                i <= total,
                total == keys.len(),
                keys == self.entries.names(),
                before == self@,
                forall|k: Seq<char>| #[trigger] text::views(gone@).contains(k) ==> mentions(command@, k),
                forall|j: int|
                    0 <= j < i && mentions(command@, #[trigger] keys[j]) ==> text::views(
                        gone@,
                    ).contains(keys[j]),
            decreases total - i,
        {
            let key = self.entries.key_at(i);
            if is_mentioned(command, key.as_str()) {
                let ghost had = text::views(gone@);
                gone.push(key.clone());
                proof {
                    let now = text::views(gone@);
                    assert(now == had.push(key@));
                    assert(now[had.len() as int] == key@);
                    assert forall|j: int|
                        0 <= j < i + 1 && mentions(command@, #[trigger] keys[j]) implies now.contains(
                        keys[j],
                    ) by {
                        if j < i {
                            let x = had.index_of(keys[j]);
                            assert(now[x] == keys[j]);
                        }
                    }
                    assert forall|k: Seq<char>| #[trigger] now.contains(k) implies mentions(
                        command@,
                        k,
                    ) by {
                        let x = now.index_of(k);
                        if x < had.len() {
                            assert(had[x] == k);
                            assert(had.contains(k));
                        }
                    }
                }
            }
            i += 1;
        }
        let ghost gv = text::views(gone@);
        assert(gv.len() == gone@.len());
        let mut j: usize = 0;
        while j < gone.len()
            invariant
                j <= gone.len(),
                gv == text::views(gone@),
                self@.turn == before.turn,
                forall|k: Seq<char>| #[trigger]
                    self@.entries.dom().contains(k) <==> before.entries.dom().contains(k)
                        && !gv.take(j as int).contains(k),
                forall|k: Seq<char>| #[trigger]
                    self@.entries.dom().contains(k) ==> self@.entries[k] == before.entries[k],
            decreases gone.len() - j,
        {
            let ghost had = self@;
            self.entries.remove(gone[j].as_str());
            proof {
                let key = gone@[j as int]@;
                assert(gv[j as int] == key);
                assert(self@.entries =~= had.entries.remove(key));
                assert forall|k: Seq<char>| gv.take(j + 1).contains(k) == (gv.take(j as int).contains(
                    k,
                ) || k == key) by {
                    if gv.take(j as int).contains(k) {
                        let x = gv.take(j as int).index_of(k);
                        assert(gv.take(j + 1)[x] == k);
                    }
                    if k == key {
                        assert(gv.take(j + 1)[j as int] == k);
                    }
                    if gv.take(j + 1).contains(k) {
                        let x = gv.take(j + 1).index_of(k);
                        if x < j {
                            assert(gv.take(j as int)[x] == k);
                        }
                    }
                }
                assert forall|k: Seq<char>| #[trigger]
                    self@.entries.dom().contains(k) == (before.entries.dom().contains(k)
                        && !gv.take(j + 1).contains(k)) by {
                    assert(had.entries.dom().contains(k) == (before.entries.dom().contains(k)
                        && !gv.take(j as int).contains(k)));
                }
            }
            j += 1;
        }
        proof {
            assert(gv.take(j as int) =~= gv);
            assert forall|k: Seq<char>| before.entries.dom().contains(k) && mentions(
                command@,
                k,
            ) implies gv.contains(k) by {
                assert(keys.contains(k));
                let x = keys.index_of(k);
                assert(keys[x] == k);
            }
            assert(self@.entries =~= unmentioned(before.entries, command@));
        }
    }
}

// ── What is said of a hit ────────────────────────────────────────────────────

pub open spec fn age(turns_ago: nat) -> Seq<char> {
    if turns_ago == 0 {
        "this turn"@
    } else if turns_ago == 1 {
        "1 turn ago"@
    } else {
        number::decimal(turns_ago) + " turns ago"@
    }
}

/// How long ago a turn was.
pub fn age_str(turns_ago: usize) -> (r: String)
    ensures
        r@ == age(turns_ago as nat),
{
    if turns_ago == 0 {
        "this turn".to_owned()
    } else if turns_ago == 1 {
        "1 turn ago".to_owned()
    } else {
        let mut s = decimal_usize(turns_ago);
        s.append(" turns ago");
        s
    }
}

/// A hit of an earlier turn stands in the conversation already, and is only
/// pointed at.
pub open spec fn hit_message(content: Seq<char>, turns_ago: nat) -> Seq<char> {
    if turns_ago > 0 {
        "[Already in context — cached version: file was read "@ + age(turns_ago)
            + " and is in your message history above. Use read_file with line_range if you need a specific section, or edit_file to modify it.]"@
    } else {
        "[Returning cached version — file was read this turn. Content is shown below.]\n\n"@
            + content
    }
}

pub open spec fn range_message(content: Seq<char>, turns_ago: nat) -> Seq<char> {
    if turns_ago > 0 {
        "[Already in context — this cached range was read "@ + age(turns_ago)
            + " and is in your message history above. Use read_file with a different line_range if you need another section.]"@
    } else {
        "[Returning cached range — file was read this turn. Content is shown below.]\n\n"@
            + content
    }
}

impl CacheHit {
    pub fn into_message(self) -> (r: String)
        ensures
            r@ == hit_message(self.content@, self.turns_ago as nat),
    {
        if self.turns_ago > 0 {
            let mut s = "[Already in context — cached version: file was read ".to_owned();
            s.append(age_str(self.turns_ago).as_str());
            s.append(
                " and is in your message history above. Use read_file with line_range if you need a specific section, or edit_file to modify it.]",
            );
            return s;
        }
        let mut s = "[Returning cached version — file was read this turn. Content is shown below.]\n\n".to_owned();
        s.append(self.content.as_str());
        s
    }
}

impl RangeHit {
    pub fn into_message(self) -> (r: String)
        ensures
            r@ == range_message(self.content@, self.turns_ago as nat),
    {
        if self.turns_ago > 0 {
            let mut s = "[Already in context — this cached range was read ".to_owned();
            s.append(age_str(self.turns_ago).as_str());
            s.append(
                " and is in your message history above. Use read_file with a different line_range if you need another section.]",
            );
            return s;
        }
        let mut s = "[Returning cached range — file was read this turn. Content is shown below.]\n\n".to_owned();
        s.append(self.content.as_str());
        s
    }
}

// ── Laws of the cache ────────────────────────────────────────────────────────

/// A file that was kept is found again, with its lines, while the disk says
/// the same of it or nothing.
pub proof fn kept_is_found(
    c: CacheView,
    path: Seq<char>,
    key: Seq<char>,
    mtime: Option<i128>,
    lines: Seq<Seq<char>>,
    now: Option<i128>,
)
    requires
        now == mtime || now is None || mtime is None,
    ensures
        fresh(with_file(c, path, key, mtime, lines), key, now) == Some(
            EntryView { lines, full_output: whole(path, lines), turn: c.turn, mtime },
        ),
{
}

/// A file that has changed on the disk is not served.
pub proof fn changed_is_not_found(
    c: CacheView,
    path: Seq<char>,
    key: Seq<char>,
    mtime: i128,
    lines: Seq<Seq<char>>,
    now: i128,
)
    requires
        now != mtime,
    ensures
        fresh(with_file(c, path, key, Some(mtime), lines), key, Some(now)) is None,
{
}

/// Keeping one file leaves the others as they were.
pub proof fn others_stay(
    c: CacheView,
    path: Seq<char>,
    key: Seq<char>,
    mtime: Option<i128>,
    lines: Seq<Seq<char>>,
    other: Seq<char>,
    now: Option<i128>,
)
    requires
        other != key,
    ensures
        fresh(with_file(c, path, key, mtime, lines), other, now) == fresh(c, other, now),
{
}

/// A file that was written, or that a command names, is not served.
pub proof fn forgotten_is_not_found(
    c: CacheView,
    key: Seq<char>,
    command: Seq<char>,
    now: Option<i128>,
)
    ensures
        fresh(CacheView { entries: c.entries.remove(key), ..c }, key, now) is None,
        mentions(command, key) ==> fresh(
            CacheView { entries: unmentioned(c.entries, command), ..c },
            key,
            now,
        ) is None,
{
}

/// Every window that lies in the file is served as it was asked for.
pub proof fn windows_are_exact(total: int, start: int, end: int)
    requires
        0 <= start < end <= total,
    ensures
        window(total, start, end) == Some((start, end)),
{
}

/// A window that reaches beyond the file ends where the file ends; one that
/// begins behind the file shows its last line, and an empty one nothing.
pub proof fn windows_stay_in_the_file(total: int, start: int, end: int)
    requires
        0 <= start,
        0 <= end,
        0 <= total,
    ensures
        start < total < end ==> window(total, start, end) == Some((start, total)),
        0 < total <= start && total <= end ==> window(total, start, end) == Some((total - 1, total)),
        end <= start < total ==> window(total, start, end) is None,
        total == 0 ==> window(total, start, end) is None,
{
}

/// Each line of a window stands on a line of its own, behind its number,
/// which counts from one and is set to four places.
pub proof fn lines_are_numbered(ls: Seq<Seq<char>>, from: int, to: int)
    requires
        0 <= from <= to <= ls.len(),
        forall|k: int|
            from <= k < to ==> !(#[trigger] ls[k]).contains('\n') && (ls[k].len() == 0 || ls[k].last()
                != '\r'),
    ensures
        pieces::lines(numbered(ls, from, to)) == Seq::new(
            (to - from) as nat,
            |k: int|
                number::spaces(4 - number::decimal((from + k + 1) as nat).len()) + number::decimal(
                    (from + k + 1) as nat,
                ) + " | "@ + ls[from + k],
        ),
        from < to ==> numbered(ls, from, to).len() > 0 && numbered(ls, from, to).last() == '\n',
    decreases to - from,
{
    reveal_strlit("\n");
    reveal_strlit(" | ");
    if from < to {
        lines_are_numbered(ls, from, to - 1);
        let a = numbered(ls, from, to - 1);
        let d = number::decimal(to as nat);
        let blank = number::spaces(4 - d.len());
        let line = blank + d + " | "@ + ls[to - 1];
        number::decimal_reads_back(to as nat);
        if line.contains('\n') {
            let i = choose|i: int| 0 <= i < line.len() && line[i] == '\n';
            let n = blank.len();
            if i < n {
                assert(blank[i] == ' ');
            } else if i < n + d.len() {
                assert(text::ascii_digit(d[i - n]));
            } else if i >= n + d.len() + 3 {
                assert(ls[to - 1][i - n - d.len() - 3] == '\n');
            }
        }
        let none = Seq::<char>::empty();
        pieces::line_ends_are_dropped(line, none);
        let b = line + "\n"@;
        assert(b + none =~= b);
        assert(pieces::lines(b) =~= seq![line]);
        pieces::lines_apart(a, b);
        assert(numbered_line(to, ls[to - 1]) =~= b);
        assert(numbered(ls, from, to) == a + b);
    } else {
        assert(pieces::lines(numbered(ls, from, to)) =~= Seq::empty());
    }
}

/// A command that holds a file's path or its name makes the file forgotten,
/// and one that holds neither leaves it as it was kept.
pub proof fn commands_forget_what_they_name(
    c: CacheView,
    dir: Seq<char>,
    file: Seq<char>,
    command: Seq<char>,
)
    requires
        file.len() > 0,
        !file.contains('/'),
        file != "."@,
        file != ".."@,
        c.entries.dom().contains(dir + "/"@ + file),
    ensures
        ({
            let key = dir + "/"@ + file;
            let after = unmentioned(c.entries, command);
            let named = exists|i: int|
                0 <= i <= command.len() - file.len() && #[trigger] command.subrange(
                    i,
                    i + file.len(),
                ) == file;
            &&& named ==> !after.dom().contains(key)
            &&& !named ==> after.dom().contains(key) && after[key] == c.entries[key]
        }),
{
    reveal_strlit("/");
    let key = dir + "/"@ + file;
    paths::leaf_of_plain(dir, file);
    if text::contains(command, file) {
        let i = choose|i: int| text::occurs_at(command, file, i);
        assert(command.subrange(i, i + file.len()) == file);
    }
    if exists|i: int|
        0 <= i <= command.len() - file.len() && #[trigger] command.subrange(i, i + file.len())
            == file {
        let i = choose|i: int|
            0 <= i <= command.len() - file.len() && #[trigger] command.subrange(i, i + file.len())
                == file;
        assert(text::occurs_at(command, file, i));
    }
    if text::contains(command, key) {
        let i = choose|i: int| text::occurs_at(command, key, i);
        let n = dir.len() as int + 1;
        assert(command.subrange(i + n, i + n + file.len()) =~= command.subrange(i, i + key.len()).skip(
            n,
        ));
        assert(key.skip(n) =~= file);
        assert(text::occurs_at(command, file, i + n));
    }
}

} // verus!
