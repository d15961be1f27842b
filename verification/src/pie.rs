//! The project graph: what a project's files define, grouped by directory.

use crate::client;
use crate::client::{ContentPart, Message, MessageContent, ToolCall};
use crate::index;
use crate::index::{
    compute_end_lines, extract_symbols, sort_symbols, CallEdge, Symbol, SymbolIndex, SymbolView,
};
use crate::names::NameMap;
use crate::number;
use crate::number::{decimal_big, decimal_of, decimal_usize};
use crate::order;
use crate::order::{comes_before, sort_by, sort_texts};
use crate::paths;
use crate::paths::stem_of;
use crate::pieces;
use crate::pieces::{join_with, lines_of, split_by, split_first, words_of};
use crate::text;
use crate::text::{count, finishes_with, holds, listed, same, trimmed, CharSet};
use vstd::prelude::*;

verus! {

broadcast use crate::text::views_push;

pub const SCHEMA_VERSION: u32 = 1;

/// What is known of a project.
#[derive(Debug)]
pub struct ProjectGraph {
    pub schema_version: u32,
    /// A hash of each file, or the time of its last change.
    pub file_hashes: NameMap<String>,
    /// The number of lines of each file.
    pub file_lines: NameMap<usize>,
    /// All symbols, sorted by file, then by line.
    pub symbols: Vec<Symbol>,
    /// The files in which a name is defined.
    pub by_name: NameMap<Vec<String>>,
    /// The files, grouped by directory.
    pub clusters: Vec<Cluster>,
    /// When the project was last indexed.
    pub last_indexed: i64,
    /// The calls that each symbol makes, by `file::symbol`.
    pub call_edges: NameMap<Vec<CallEdge>>,
    /// The values that each symbol constructs, by `file::symbol`.
    pub construct_edges: NameMap<Vec<CallEdge>>,
}

/// Files that belong together.
#[derive(Debug)]
pub struct Cluster {
    pub name: String,
    pub files: Vec<String>,
    /// The three files with the most symbols.
    pub entry_files: Vec<String>,
    pub summary: Option<String>,
}

impl Default for ProjectGraph {
    fn default() -> (r: Self)
        ensures
            r.schema_version == 0,
            r.file_hashes@ == Map::<Seq<char>, String>::empty(),
            r.file_lines@ == Map::<Seq<char>, usize>::empty(),
            r.symbols@ == Seq::<Symbol>::empty(),
            r.by_name@ == Map::<Seq<char>, Vec<String>>::empty(),
            r.clusters@ == Seq::<Cluster>::empty(),
            r.last_indexed == 0,
            r.call_edges@ == Map::<Seq<char>, Vec<CallEdge>>::empty(),
            r.construct_edges@ == Map::<Seq<char>, Vec<CallEdge>>::empty(),
    {
        ProjectGraph {
            schema_version: 0,
            file_hashes: NameMap::new(),
            file_lines: NameMap::new(),
            symbols: Vec::new(),
            by_name: NameMap::new(),
            clusters: Vec::new(),
            last_indexed: 0,
            call_edges: NameMap::new(),
            construct_edges: NameMap::new(),
        }
    }
}

// ── Clusters ─────────────────────────────────────────────────────────────────

/// The name of the cluster that a file belongs to: the directory below
/// `src`, or the first directory, or `root`.
pub open spec fn cluster_name(path: Seq<char>) -> Seq<char> {
    let parts = pieces::split_set(path, CharSet::OneOf("/"));
    if parts.len() > 2 && parts[0] == "src"@ {
        parts[1]
    } else if parts.len() >= 2 {
        parts[0]
    } else {
        "root"@
    }
}

/// The name of the cluster that a file belongs to.
pub fn cluster_name_for(path: &str) -> (r: String)
    ensures
        r@ == cluster_name(path@),
{
    let parts = split_by(path, CharSet::OneOf("/"));
    let ghost v = text::views(parts@);
    assert(v.len() == parts@.len());
    if parts.len() > 2 && same(parts[0].as_str(), "src") {
        assert(v[1] == parts@[1]@);
        parts[1].clone()
    } else if parts.len() >= 2 {
        assert(v[0] == parts@[0]@);
        parts[0].clone()
    } else {
        "root".to_owned()
    }
}

/// How many symbols a file defines.
pub open spec fn count_in(symbols: Seq<Symbol>, file: Seq<char>) -> nat
    decreases symbols.len(),
{
    if symbols.len() == 0 {
        0
    } else {
        count_in(symbols.drop_last(), file) + if symbols.last().file@ == file {
            1nat
        } else {
            0nat
        }
    }
}

fn count_symbols(symbols: &Vec<Symbol>, file: &str) -> (n: usize)
    ensures
        n == count_in(symbols@, file@),
{
    let mut n: usize = 0;
    let mut i: usize = 0;
    assert(symbols@.take(0) =~= Seq::<Symbol>::empty());
    while i < symbols.len()
        invariant
            i <= symbols.len(),
            n <= i,
            n == count_in(symbols@.take(i as int), file@),
        decreases symbols.len() - i,
    {
        assert(symbols@.take(i + 1).drop_last() =~= symbols@.take(i as int));
        if same(symbols[i].file.as_str(), file) {
            n += 1;
        }
        i += 1;
    }
    assert(symbols@.take(i as int) =~= symbols@);
    n
}

/// Files with more symbols first, then by name.
pub open spec fn by_weight(symbols: Seq<Symbol>) -> spec_fn(Seq<char>, Seq<char>) -> bool {
    |a: Seq<char>, b: Seq<char>|
        count_in(symbols, a) > count_in(symbols, b) || (count_in(symbols, a) == count_in(symbols, b)
            && order::not_after(a, b))
}

pub open spec fn first_n<T>(s: Seq<T>, n: int) -> Seq<T> {
    if s.len() <= n {
        s
    } else {
        s.take(n)
    }
}

/// The three files with the most symbols.
pub open spec fn heaviest(symbols: Seq<Symbol>, files: Seq<Seq<char>>) -> Seq<Seq<char>> {
    first_n(order::sorted_by(files, by_weight(symbols)), 3)
}

pub open spec fn weighed(a: (String, usize), b: (String, usize)) -> bool {
    a.1 > b.1 || (a.1 == b.1 && order::not_after(a.0@, b.0@))
}

pub open spec fn by_weighed() -> spec_fn((String, usize), (String, usize)) -> bool {
    |a: (String, usize), b: (String, usize)| weighed(a, b)
}

fn heaviest_files(symbols: &Vec<Symbol>, files: &Vec<String>) -> (r: Vec<String>)
    ensures
        text::views(r@) == heaviest(symbols@, text::views(files@)),
{
    let mut scored: Vec<(String, usize)> = Vec::new();
    let mut i: usize = 0;
    while i < files.len()
        invariant
            i <= files.len(),
            scored.len() == i,
            forall|k: int|
                0 <= k < i ==> (#[trigger] scored@[k]).0@ == files@[k]@ && scored@[k].1 == count_in(
                    symbols@,
                    files@[k]@,
                ),
        decreases files.len() - i,
    {
        scored.push((files[i].clone(), count_symbols(symbols, files[i].as_str())));
        i += 1;
    }
    let ghost raw = scored@;
    let le = |a: &(String, usize), b: &(String, usize)| -> (r: bool)
        ensures r == weighed(*a, *b)
    {
        a.1 > b.1 || (a.1 == b.1 && !comes_before(b.0.as_str(), a.0.as_str()))
    };
    sort_by(&mut scored, le, Ghost(by_weighed()));
    let ghost goal = order::sorted_by(text::views(files@), by_weight(symbols@));
    proof {
        let p = |x: (String, usize)| x.1 == count_in(symbols@, x.0@);
        let f = |x: (String, usize)| x.0@;
        order::sorted_map(raw, p, f, by_weighed(), by_weight(symbols@));
        assert(raw.map_values(f) =~= text::views(files@));
        assert(scored@.map_values(f) == goal);
        assert forall|k: int| 0 <= k < scored@.len() implies goal[k] == (#[trigger] scored@[k]).0@ by {
            assert(scored@.map_values(f)[k] == scored@[k].0@);
        }
        order::sorted_is_sorted(raw, by_weighed());
        order::sorted_is_sorted(text::views(files@), by_weight(symbols@));
    }
    let mut out: Vec<String> = Vec::new();
    let mut j: usize = 0;
    while j < scored.len() && j < 3
        invariant
            j <= scored.len(),
            j <= 3,
            out.len() == j,
            scored.len() == goal.len(),
            forall|k: int| 0 <= k < scored@.len() ==> goal[k] == (#[trigger] scored@[k]).0@,
            forall|k: int| 0 <= k < j ==> (#[trigger] out@[k])@ == goal[k],
        decreases scored.len() - j,
    {
        out.push(scored[j].0.clone());
        j += 1;
    }
    assert(text::views(out@) =~= first_n(goal, 3));
    out
}

/// Larger clusters first, then by name.
pub open spec fn cluster_first(a: Cluster, b: Cluster) -> bool {
    a.files@.len() > b.files@.len() || (a.files@.len() == b.files@.len() && order::not_after(
        a.name@,
        b.name@,
    ))
}

pub open spec fn by_size() -> spec_fn(Cluster, Cluster) -> bool {
    |a: Cluster, b: Cluster| cluster_first(a, b)
}

pub proof fn by_size_sorts()
    ensures
        order::sorts(by_size()),
{
    let le = by_size();
    assert forall|a: Cluster, b: Cluster| #[trigger] le(a, b) || le(b, a) by {
        if order::before(b.name@, a.name@) && order::before(a.name@, b.name@) {
            order::before_asymmetric(a.name@, b.name@);
        }
    }
    assert forall|a: Cluster, b: Cluster, c: Cluster| #[trigger] le(a, b) && #[trigger] le(
        b,
        c,
    ) implies le(a, c) by {
        order::by_chars_sorts();
        let t = order::by_chars();
        if a.files@.len() == b.files@.len() && b.files@.len() == c.files@.len() {
            assert(t(a.name@, b.name@));
            assert(t(b.name@, c.name@));
            assert(t(a.name@, c.name@));
        }
    }
}

/// Whether a cluster holds exactly the known files of its name, in order,
/// with the heaviest as its entries.
pub open spec fn cluster_of(c: Cluster, symbols: Seq<Symbol>, files: Set<Seq<char>>) -> bool {
    let fs = text::views(c.files@);
    &&& fs.len() > 0
    &&& order::in_order(fs, order::by_chars())
    &&& fs.no_duplicates()
    &&& forall|f: Seq<char>|
        #[trigger] fs.contains(f) <==> files.contains(f) && cluster_name(f) == c.name@
    &&& text::views(c.entry_files@) == heaviest(symbols, fs)
    &&& c.summary is None
}

/// Whether the clusters are those of the files: the larger first, then by
/// name, and one for each name.
pub open spec fn clustered(cs: Seq<Cluster>, symbols: Seq<Symbol>, files: Set<Seq<char>>) -> bool {
    &&& order::in_order(cs, by_size())
    &&& forall|i: int, j: int|
        0 <= i < j < cs.len() ==> (#[trigger] cs[i]).name@ != (#[trigger] cs[j]).name@
    &&& forall|i: int| 0 <= i < cs.len() ==> cluster_of(#[trigger] cs[i], symbols, files)
    &&& forall|f: Seq<char>| #[trigger]
        files.contains(f) ==> exists|i: int| 0 <= i < cs.len() && (#[trigger] cs[i]).name@ == cluster_name(f)
}

/// Every file stands in one cluster and in no other.
pub proof fn clusters_part_the_files(
    cs: Seq<Cluster>,
    symbols: Seq<Symbol>,
    files: Set<Seq<char>>,
    f: Seq<char>,
)
    requires
        clustered(cs, symbols, files),
        files.contains(f),
    ensures
        exists|i: int| 0 <= i < cs.len() && text::views((#[trigger] cs[i]).files@).contains(f),
        forall|i: int, j: int|
            0 <= i < cs.len() && 0 <= j < cs.len() && text::views((#[trigger] cs[i]).files@).contains(
                f,
            ) && text::views((#[trigger] cs[j]).files@).contains(f) ==> i == j,
{
    let i = choose|i: int| 0 <= i < cs.len() && (#[trigger] cs[i]).name@ == cluster_name(f);
    assert(cluster_of(cs[i], symbols, files));
    assert(text::views(cs[i].files@).contains(f));
    assert forall|i: int, j: int|
        0 <= i < cs.len() && 0 <= j < cs.len() && text::views((#[trigger] cs[i]).files@).contains(f)
            && text::views((#[trigger] cs[j]).files@).contains(f) implies i == j by {
        assert(cluster_of(cs[i], symbols, files));
        assert(cluster_of(cs[j], symbols, files));
        if i < j {
            assert(cs[i].name@ != cs[j].name@);
        } else if j < i {
            assert(cs[j].name@ != cs[i].name@);
        }
    }
}

/// The entries of a cluster are files of it, three at most.
pub proof fn entries_are_files(c: Cluster, symbols: Seq<Symbol>, files: Set<Seq<char>>)
    requires
        cluster_of(c, symbols, files),
    ensures
        c.entry_files@.len() <= 3,
        forall|i: int|
            0 <= i < c.entry_files@.len() ==> text::views(c.files@).contains(
                (#[trigger] c.entry_files@[i])@,
            ),
{
    let fs = text::views(c.files@);
    let sorted = order::sorted_by(fs, by_weight(symbols));
    order::sorted_same_items(fs, by_weight(symbols));
    let es = text::views(c.entry_files@);
    assert(es.len() == c.entry_files@.len());
    assert forall|i: int| 0 <= i < c.entry_files@.len() implies fs.contains(
        (#[trigger] c.entry_files@[i])@,
    ) by {
        assert(es[i] == c.entry_files@[i]@);
        assert(es[i] == sorted[i]);
        assert(sorted.contains(sorted[i]));
    }
}

/// What has been grouped of the first keys.
pub open spec fn grouped(g: (String, Vec<String>), keys: Seq<Seq<char>>) -> bool {
    let fs = text::views(g.1@);
    &&& fs.len() > 0
    &&& fs.no_duplicates()
    &&& forall|f: Seq<char>|
        #[trigger] fs.contains(f) <==> keys.contains(f) && cluster_name(f) == g.0@
}

fn group_files(file_lines: &NameMap<usize>) -> (groups: Vec<(String, Vec<String>)>)
    ensures
        file_lines.keyed(),
        forall|i: int| 0 <= i < groups.len() ==> grouped(#[trigger] groups@[i], file_lines.names()),
        forall|i: int, j: int|
            0 <= i < j < groups.len() ==> (#[trigger] groups@[i]).0@ != (#[trigger] groups@[j]).0@,
        forall|f: Seq<char>|
            #[trigger] file_lines.names().contains(f) ==> exists|i: int|
                0 <= i < groups.len() && (#[trigger] groups@[i]).0@ == cluster_name(f),
{
    let n: usize = file_lines.len();
    let ghost keys = file_lines.names();
    let mut groups: Vec<(String, Vec<String>)> = Vec::new();
    let mut i: usize = 0;
    while i < n
        invariant
            i <= n,
            n == keys.len(),
            keys == file_lines.names(),
            keys.no_duplicates(),
            forall|g: int| 0 <= g < groups.len() ==> grouped(#[trigger] groups@[g], keys.take(i as int)),
            forall|g: int, h: int|
                0 <= g < h < groups.len() ==> (#[trigger] groups@[g]).0@ != (#[trigger] groups@[h]).0@,
            forall|f: Seq<char>|
                #[trigger] keys.take(i as int).contains(f) ==> exists|g: int|
                    0 <= g < groups.len() && (#[trigger] groups@[g]).0@ == cluster_name(f),
        decreases n - i,
    {
        let path = file_lines.key_at(i);
        let name = cluster_name_for(path.as_str());
        let ghost before = groups@;
        let ghost seen = keys.take(i as int);
        let ghost now = keys.take(i + 1);
        proof {
            assert(now =~= seen.push(path@));
            assert(!seen.contains(path@)) by {
                if seen.contains(path@) {
                    let k = choose|k: int| 0 <= k < seen.len() && seen[k] == path@;
                    assert(keys[k] == keys[i as int]);
                }
            }
            assert forall|f: Seq<char>| now.contains(f) == (seen.contains(f) || f == path@) by {
                if seen.contains(f) {
                    let k = choose|k: int| 0 <= k < seen.len() && seen[k] == f;
                    assert(now[k] == f);
                }
                if f == path@ {
                    assert(now[i as int] == f);
                }
            }
        }
        let mut g: usize = 0;
        while g < groups.len() && !same(groups[g].0.as_str(), name.as_str())
            invariant
                g <= groups.len(),
                groups@ == before,
                forall|k: int| 0 <= k < g ==> (#[trigger] before[k]).0@ != name@,
            decreases groups.len() - g,
        {
            g += 1;
        }
        if g < groups.len() {
            let mut entry = groups.remove(g);
            let ghost old_files = text::views(entry.1@);
            entry.1.push(path.clone());
            let ghost e = entry;
            groups.insert(g, entry);
            proof {
                let fs = text::views(e.1@);
                assert(fs == old_files.push(path@));
                assert(grouped(before[g as int], seen));
                assert(!old_files.contains(path@));
                assert forall|f: Seq<char>| #[trigger] fs.contains(f) <==> now.contains(f) && cluster_name(
                    f,
                ) == e.0@ by {
                    if old_files.contains(f) {
                        let k = choose|k: int| 0 <= k < old_files.len() && old_files[k] == f;
                        assert(fs[k] == f);
                    }
                    if f == path@ {
                        assert(fs[old_files.len() as int] == f);
                    }
                    if fs.contains(f) && f != path@ {
                        let k = choose|k: int| 0 <= k < fs.len() && fs[k] == f;
                        assert(old_files[k] == f);
                    }
                }
                assert(grouped(e, now));
                assert forall|k: int| 0 <= k < groups@.len() implies grouped(#[trigger] groups@[k], now) by {
                    if k != g {
                        assert(groups@[k] == before[k]);
                        assert(grouped(before[k], seen));
                        if k < g {
                            assert(before[k].0@ != before[g as int].0@);
                        } else {
                            assert(before[g as int].0@ != before[k].0@);
                        }
                    }
                }
                assert forall|f: Seq<char>| #[trigger] now.contains(f) implies exists|k: int|
                    0 <= k < groups@.len() && (#[trigger] groups@[k]).0@ == cluster_name(f) by {
                    if seen.contains(f) {
                        let k = choose|k: int|
                            0 <= k < before.len() && (#[trigger] before[k]).0@ == cluster_name(f);
                        assert(groups@[k].0@ == cluster_name(f));
                    } else {
                        assert(groups@[g as int].0@ == cluster_name(f));
                    }
                }
            }
        } else {
            let mut fresh: Vec<String> = Vec::new();
            fresh.push(path.clone());
            let ghost e = (name, fresh);
            groups.push((name, fresh));
            proof {
                let fs = text::views(fresh@);
                assert(fs =~= seq![path@]);
                assert forall|f: Seq<char>| #[trigger] fs.contains(f) <==> now.contains(f) && cluster_name(
                    f,
                ) == name@ by {
                    if f == path@ {
                        assert(fs[0] == f);
                    }
                    if seen.contains(f) && cluster_name(f) == name@ {
                        let k = choose|k: int|
                            0 <= k < before.len() && (#[trigger] before[k]).0@ == cluster_name(f);
                        assert(before[k].0@ != name@);
                    }
                }
                assert(grouped(groups@[g as int], now));
                assert forall|k: int| 0 <= k < groups@.len() implies grouped(#[trigger] groups@[k], now) by {
                    if k < g {
                        assert(groups@[k] == before[k]);
                        assert(grouped(before[k], seen));
                        assert(before[k].0@ != name@);
                    }
                }
                assert forall|f: Seq<char>| #[trigger] now.contains(f) implies exists|k: int|
                    0 <= k < groups@.len() && (#[trigger] groups@[k]).0@ == cluster_name(f) by {
                    if seen.contains(f) {
                        let k = choose|k: int|
                            0 <= k < before.len() && (#[trigger] before[k]).0@ == cluster_name(f);
                        assert(groups@[k].0@ == cluster_name(f));
                    } else {
                        assert(groups@[g as int].0@ == cluster_name(f));
                    }
                }
            }
        }
        i += 1;
    }
    assert(keys.take(i as int) =~= keys);
    groups
}

/// Groups the files by directory.
pub fn build_clusters(symbols: &Vec<Symbol>, file_lines: &NameMap<usize>) -> (r: Vec<Cluster>)
    ensures
        clustered(r@, symbols@, file_lines@.dom()),
{
    let groups = group_files(file_lines);
    let ghost keys = file_lines.names();
    let ghost dom = file_lines@.dom();
    let mut clusters: Vec<Cluster> = Vec::new();
    let mut i: usize = 0;
    while i < groups.len()
        invariant
            i <= groups.len(),
            clusters.len() == i,
            file_lines.keyed(),
            keys == file_lines.names(),
            dom == file_lines@.dom(),
            forall|g: int| 0 <= g < groups.len() ==> grouped(#[trigger] groups@[g], keys),
            forall|k: int| 0 <= k < i ==> (#[trigger] clusters@[k]).name@ == groups@[k].0@,
            forall|k: int| 0 <= k < i ==> cluster_of(#[trigger] clusters@[k], symbols@, dom),
        decreases groups.len() - i,
    {
        let mut files: Vec<String> = Vec::new();
        let mut j: usize = 0;
        let ghost given = text::views(groups@[i as int].1@);
        while j < groups[i].1.len()
            invariant
                i < groups.len(),
                j <= groups@[i as int].1.len(),
                files.len() == j,
                given == text::views(groups@[i as int].1@),
                forall|k: int| 0 <= k < j ==> (#[trigger] files@[k])@ == given[k],
            decreases groups@[i as int].1.len() - j,
        {
            files.push(groups[i].1[j].clone());
            j += 1;
        }
        assert(text::views(files@) =~= given);
        let ghost raw = files@;
        sort_texts(&mut files);
        proof {
            order::sorted_texts(raw);
            order::by_chars_sorts();
            order::sorted_is_sorted(given, order::by_chars());
            order::sorted_same_items(given, order::by_chars());
            assert(grouped(groups@[i as int], keys));
        }
        let entry_files = heaviest_files(symbols, &files);
        let ghost fs = text::views(files@);
        let name = groups[i].0.clone();
        let c = Cluster { name, files, entry_files, summary: None };
        proof {
            assert forall|f: Seq<char>| #[trigger] fs.contains(f) <==> dom.contains(f) && cluster_name(
                f,
            ) == c.name@ by {
                assert(given.contains(f) == fs.contains(f));
                assert(dom.contains(f) == keys.contains(f));
            }
            assert(cluster_of(c, symbols@, dom));
        }
        clusters.push(c);
        i += 1;
    }
    let ghost raw = clusters@;
    proof {
        assert forall|a: int, b: int| 0 <= a < b < raw.len() implies (#[trigger] raw[a]).name@ != (
        #[trigger] raw[b]).name@ by {
            assert(groups@[a].0@ != groups@[b].0@);
        }
        assert(raw.no_duplicates());
    }
    let le = |a: &Cluster, b: &Cluster| -> (r: bool)
        ensures r == cluster_first(*a, *b)
    {
        a.files.len() > b.files.len() || (a.files.len() == b.files.len() && !comes_before(
            b.name.as_str(),
            a.name.as_str(),
        ))
    };
    sort_by(&mut clusters, le, Ghost(by_size()));
    proof {
        let cs = clusters@;
        by_size_sorts();
        order::sorted_is_sorted(raw, by_size());
        order::sorted_same_items(raw, by_size());
        assert forall|a: int| 0 <= a < cs.len() implies cluster_of(#[trigger] cs[a], symbols@, dom) by {
            assert(cs.contains(cs[a]));
            assert(raw.contains(cs[a]));
        }
        assert forall|a: int, b: int| 0 <= a < b < cs.len() implies (#[trigger] cs[a]).name@ != (
        #[trigger] cs[b]).name@ by {
            assert(cs.contains(cs[a]) && cs.contains(cs[b]));
            assert(raw.contains(cs[a]) && raw.contains(cs[b]));
            let x = choose|x: int| 0 <= x < raw.len() && raw[x] == cs[a];
            let y = choose|y: int| 0 <= y < raw.len() && raw[y] == cs[b];
            assert(cs[a] != cs[b]);
            if x < y {
                assert(raw[x].name@ != raw[y].name@);
            } else {
                assert(raw[y].name@ != raw[x].name@);
            }
        }
        assert forall|f: Seq<char>| #[trigger] dom.contains(f) implies exists|a: int|
            0 <= a < cs.len() && (#[trigger] cs[a]).name@ == cluster_name(f) by {
            assert(keys.contains(f));
            let g = choose|g: int| 0 <= g < groups@.len() && (#[trigger] groups@[g]).0@ == cluster_name(f);
            assert(raw[g].name@ == cluster_name(f));
            assert(raw.contains(raw[g]));
            assert(cs.contains(raw[g]));
            let a = choose|a: int| 0 <= a < cs.len() && cs[a] == raw[g];
            assert(cs[a].name@ == cluster_name(f));
        }
    }
    clusters
}


// ── Names to files ───────────────────────────────────────────────────────────

/// The list with `f` at its end, unless it holds `f`.
pub open spec fn with_new(out: Seq<Seq<char>>, f: Seq<char>) -> Seq<Seq<char>> {
    if out.contains(f) {
        out
    } else {
        out.push(f)
    }
}

pub open spec fn with_all(out: Seq<Seq<char>>, fs: Seq<Seq<char>>) -> Seq<Seq<char>>
    decreases fs.len(),
{
    if fs.len() == 0 {
        out
    } else {
        with_new(with_all(out, fs.drop_last()), fs.last())
    }
}

/// What an entry stands for: a path for itself, a known name for the files
/// that define it, any other name for itself.
pub open spec fn meaning(e: Seq<char>, by_name: Map<Seq<char>, Seq<Seq<char>>>) -> Seq<Seq<char>> {
    if !(text::contains(e, "/"@) || text::contains(e, "."@)) && by_name.dom().contains(e) {
        by_name[e]
    } else {
        seq![e]
    }
}

/// The files that entries stand for, each once, in the order they come.
pub open spec fn resolved(
    entries: Seq<Seq<char>>,
    by_name: Map<Seq<char>, Seq<Seq<char>>>,
) -> Seq<Seq<char>>
    decreases entries.len(),
{
    if entries.len() == 0 {
        Seq::empty()
    } else {
        with_all(resolved(entries.drop_last(), by_name), meaning(entries.last(), by_name))
    }
}

proof fn with_all_distinct(out: Seq<Seq<char>>, fs: Seq<Seq<char>>)
    requires
        out.no_duplicates(),
    ensures
        with_all(out, fs).no_duplicates(),
    decreases fs.len(),
{
    if fs.len() > 0 {
        with_all_distinct(out, fs.drop_last());
    }
}

/// No file comes twice among those that entries stand for.
pub proof fn resolved_distinct(
    entries: Seq<Seq<char>>,
    by_name: Map<Seq<char>, Seq<Seq<char>>>,
)
    ensures
        resolved(entries, by_name).no_duplicates(),
    decreases entries.len(),
{
    if entries.len() > 0 {
        resolved_distinct(entries.drop_last(), by_name);
        with_all_distinct(
            resolved(entries.drop_last(), by_name),
            meaning(entries.last(), by_name),
        );
    }
}

fn push_new(out: &mut Vec<String>, f: &str)
    ensures
        text::views(final(out)@) == with_new(text::views(old(out)@), f@),
{
    if !listed(f, out) {
        out.push(f.to_owned());
    }
}

impl ProjectGraph {
    /// The files that paths and symbol names stand for.
    pub fn resolve_files(&self, entries: &[String]) -> (r: Vec<String>)
        ensures
            text::views(r@) == resolved(
                text::views(entries@),
                index::file_lists(self.by_name@),
            ),
    {
        let ghost es = text::views(entries@);
        let ghost known = index::file_lists(self.by_name@);
        let mut out: Vec<String> = Vec::new();
        let mut i: usize = 0;
        proof {
            text::views_empty();
            assert(es.take(0) =~= Seq::<Seq<char>>::empty());
        }
        while i < entries.len()
            invariant
                i <= entries.len(),
                es == text::views(entries@),
                known == index::file_lists(self.by_name@),
                text::views(out@) == resolved(es.take(i as int), known),
            decreases entries.len() - i,
        {
            let e = entries[i].as_str();
            let ghost start = text::views(out@);
            proof {
                assert(es.take(i + 1).drop_last() =~= es.take(i as int));
                assert(es.take(i + 1).last() == e@);
                reveal_with_fuel(with_all, 2);
                assert(seq![e@].drop_last() =~= Seq::<Seq<char>>::empty());
            }
            if holds(e, "/") || holds(e, ".") {
                push_new(&mut out, e);
            } else {
                match self.by_name.get(e) {
                    Some(files) => {
                        let ghost fs = text::views(files@);
                        let mut j: usize = 0;
                        assert(fs.take(0) =~= Seq::<Seq<char>>::empty());
                        while j < files.len()
                            invariant
                                j <= files.len(),
                                fs == text::views(files@),
                                text::views(out@) == with_all(start, fs.take(j as int)),
                            decreases files.len() - j,
                        {
                            assert(fs.take(j + 1).drop_last() =~= fs.take(j as int));
                            assert(fs.take(j + 1).last() == files@[j as int]@);
                            push_new(&mut out, files[j].as_str());
                            j += 1;
                        }
                        assert(fs.take(j as int) =~= fs);
                    },
                    None => {
                        push_new(&mut out, e);
                    },
                }
            }
            i += 1;
        }
        assert(es.take(i as int) =~= es);
        out
    }
}

// ── The prompt section ───────────────────────────────────────────────────────

/// A symbol as it is listed.
pub open spec fn shown_symbol(s: SymbolView) -> Seq<char> {
    index::label(s.kind) + " "@ + s.name
}

fn show_symbol(s: &Symbol) -> (r: String)
    ensures
        r@ == shown_symbol(s@),
{
    let mut t = s.kind.label().to_owned();
    t.append(" ");
    t.append(s.name.as_str());
    t
}

/// The symbols of the files, as they are listed.
pub open spec fn shown_in(symbols: Seq<SymbolView>, files: Seq<Seq<char>>) -> Seq<Seq<char>>
    decreases symbols.len(),
{
    if symbols.len() == 0 {
        Seq::empty()
    } else if files.contains(symbols.last().file) {
        shown_in(symbols.drop_last(), files).push(shown_symbol(symbols.last()))
    } else {
        shown_in(symbols.drop_last(), files)
    }
}

fn show_symbols_in(symbols: &Vec<Symbol>, files: &Vec<String>) -> (r: Vec<String>)
    ensures
        text::views(r@) == shown_in(index::symbol_views(symbols@), text::views(files@)),
{
    let ghost sv = index::symbol_views(symbols@);
    let ghost fs = text::views(files@);
    let mut out: Vec<String> = Vec::new();
    let mut i: usize = 0;
    proof {
        text::views_empty();
        assert(sv.take(0) =~= Seq::<SymbolView>::empty());
    }
    while i < symbols.len()
        invariant
            i <= symbols.len(),
            sv == index::symbol_views(symbols@),
            fs == text::views(files@),
            text::views(out@) == shown_in(sv.take(i as int), fs),
        decreases symbols.len() - i,
    {
        assert(sv.take(i + 1).drop_last() =~= sv.take(i as int));
        assert(sv.take(i + 1).last() == symbols@[i as int]@);
        if listed(symbols[i].file.as_str(), files) {
            out.push(show_symbol(&symbols[i]));
        }
        i += 1;
    }
    assert(sv.take(i as int) =~= sv);
    out
}

/// The first `n` strings, or all.
pub fn first_strings(v: &Vec<String>, n: usize) -> (r: Vec<String>)
    ensures
        text::views(r@) == first_n(text::views(v@), n as int),
{
    let mut out: Vec<String> = Vec::new();
    let mut i: usize = 0;
    while i < v.len() && i < n
        invariant
            i <= v.len(),
            i <= n,
            out.len() == i,
            forall|k: int| 0 <= k < i ==> (#[trigger] out@[k])@ == v@[k]@,
        decreases v.len() - i,
    {
        out.push(v[i].clone());
        i += 1;
    }
    assert(text::views(out@) =~= first_n(text::views(v@), n as int));
    out
}

pub open spec fn line_count(lens: Map<Seq<char>, usize>, f: Seq<char>) -> nat {
    if lens.dom().contains(f) {
        lens[f] as nat
    } else {
        0
    }
}

/// A key file: its lines follow, where they are known.
pub open spec fn key_file(lens: Map<Seq<char>, usize>, f: Seq<char>) -> Seq<char> {
    if line_count(lens, f) > 0 {
        f + " ("@ + number::decimal(line_count(lens, f)) + " lines)"@
    } else {
        f
    }
}

fn show_key_files(file_lines: &NameMap<usize>, files: &Vec<String>) -> (r: Vec<String>)
    ensures
        text::views(r@) == Seq::new(
            files@.len(),
            |i: int| key_file(file_lines@, text::views(files@)[i]),
        ),
{
    let mut out: Vec<String> = Vec::new();
    let mut i: usize = 0;
    while i < files.len()
        invariant
            i <= files.len(),
            out.len() == i,
            forall|k: int| 0 <= k < i ==> (#[trigger] out@[k])@ == key_file(file_lines@, files@[k]@),
        decreases files.len() - i,
    {
        let f = files[i].as_str();
        let lines: usize = match file_lines.get(f) {
            Some(n) => *n,
            None => 0,
        };
        let mut s = f.to_owned();
        if lines > 0 {
            s.append(" (");
            s.append(decimal_usize(lines).as_str());
            s.append(" lines)");
        }
        out.push(s);
        i += 1;
    }
    assert(text::views(out@) =~= Seq::new(
        files@.len(),
        |i: int| key_file(file_lines@, text::views(files@)[i]),
    ));
    out
}

/// What is said of a cluster below its heading: its key files and its
/// symbols.
pub open spec fn cluster_body(g: ProjectGraph, c: Cluster) -> Seq<char> {
    let files = text::views(c.files@);
    let entries = text::views(c.entry_files@);
    let keys = if entries.len() == 0 {
        Seq::empty()
    } else {
        "Key files: "@ + pieces::join(
            Seq::new(entries.len(), |i: int| key_file(g.file_lines@, entries[i])),
            ", "@,
        ) + "\n"@
    };
    let syms = shown_in(index::symbol_views(g.symbols@), files);
    if syms.len() == 0 {
        keys
    } else {
        keys + pieces::join(first_n(syms, 10), ", "@) + (if syms.len() > 10 {
            " … ("@ + number::decimal(syms.len()) + " symbols)"@
        } else {
            Seq::empty()
        }) + "\n"@
    }
}

/// What a cluster adds to the section.
pub open spec fn cluster_text(g: ProjectGraph, c: Cluster) -> Seq<char> {
    "\n## "@ + c.name@ + " ("@ + number::decimal(c.files@.len()) + " files)\n"@ + cluster_body(g, c)
}

/// What the first `n` clusters add.
pub open spec fn clusters_text(g: ProjectGraph, n: int) -> Seq<char>
    decreases n,
{
    if n <= 0 {
        Seq::empty()
    } else {
        clusters_text(g, n - 1) + cluster_text(g, g.clusters@[n - 1])
    }
}

/// How many files the clusters hold.
pub open spec fn total_files(cs: Seq<Cluster>) -> nat
    decreases cs.len(),
{
    if cs.len() == 0 {
        0
    } else {
        total_files(cs.drop_last()) + cs.last().files@.len()
    }
}

/// The project's structure for the planning prompt.
pub open spec fn prompt_section(g: ProjectGraph, max_clusters: int) -> Option<Seq<char>> {
    let n = g.clusters@.len();
    if n == 0 {
        flat_section(index::symbol_views(g.symbols@), g.file_lines@, 60)
    } else {
        let shown = if n <= max_clusters {
            n as int
        } else {
            max_clusters
        };
        Some(
            "# Project structure — "@ + number::decimal(n) + " clusters, "@ + number::decimal(
                total_files(g.clusters@),
            ) + " files\n"@ + clusters_text(g, shown) + (if n > max_clusters {
                "\n… and "@ + number::decimal((n - max_clusters) as nat) + " more clusters\n"@
            } else {
                Seq::empty()
            }),
        )
    }
}

/// The symbols of one file after the other: a run of symbols of one file is
/// one group.
pub open spec fn runs(symbols: Seq<SymbolView>) -> Seq<(Seq<char>, Seq<Seq<char>>)>
    decreases symbols.len(),
{
    if symbols.len() == 0 {
        Seq::empty()
    } else {
        let r = runs(symbols.drop_last());
        let s = symbols.last();
        if r.len() > 0 && r.last().0 == s.file {
            r.drop_last().push((s.file, r.last().1.push(shown_symbol(s))))
        } else {
            r.push((s.file, seq![shown_symbol(s)]))
        }
    }
}

/// A file with its symbols on one line.
pub open spec fn run_line(lens: Map<Seq<char>, usize>, r: (Seq<char>, Seq<Seq<char>>)) -> Seq<char> {
    let names = if r.1.len() > 12 {
        pieces::join(r.1.take(12), ", "@) + ", … ("@ + number::decimal(r.1.len()) + " total)"@
    } else {
        pieces::join(r.1, ", "@)
    };
    let info = if lens.dom().contains(r.0) {
        " ("@ + number::decimal(lens[r.0] as nat) + " lines)"@
    } else {
        Seq::empty()
    };
    "  "@ + r.0 + info + ": "@ + names
}

/// All symbols, a file to a line.
pub open spec fn flat_section(
    symbols: Seq<SymbolView>,
    lens: Map<Seq<char>, usize>,
    max_lines: int,
) -> Option<Seq<char>> {
    let rs = first_n(runs(symbols), max_lines);
    if symbols.len() == 0 || max_lines <= 0 {
        None
    } else {
        Some(
            "# Project symbol index\nUse these paths in the \"files\" field of each step:\n\n"@
                + pieces::join(Seq::new(rs.len(), |i: int| run_line(lens, rs[i])), "\n"@) + "\n"@,
        )
    }
}

pub open spec fn run_view(r: (String, Vec<String>)) -> (Seq<char>, Seq<Seq<char>>) {
    (r.0@, text::views(r.1@))
}

pub open spec fn run_views(v: Seq<(String, Vec<String>)>) -> Seq<(Seq<char>, Seq<Seq<char>>)> {
    Seq::new(v.len(), |i: int| run_view(v[i]))
}

fn group_runs(symbols: &Vec<Symbol>) -> (r: Vec<(String, Vec<String>)>)
    ensures
        run_views(r@) == runs(index::symbol_views(symbols@)),
{
    let ghost sv = index::symbol_views(symbols@);
    let mut out: Vec<(String, Vec<String>)> = Vec::new();
    let mut i: usize = 0;
    assert(sv.take(0) =~= Seq::<SymbolView>::empty());
    assert(run_views(out@) =~= Seq::<(Seq<char>, Seq<Seq<char>>)>::empty());
    while i < symbols.len()
        invariant
            i <= symbols.len(),
            sv == index::symbol_views(symbols@),
            run_views(out@) == runs(sv.take(i as int)),
        decreases symbols.len() - i,
    {
        let s = &symbols[i];
        let ghost before = run_views(out@);
        proof {
            assert(sv.take(i + 1).drop_last() =~= sv.take(i as int));
            assert(sv.take(i + 1).last() == s@);
            assert(before.len() == out@.len());
        }
        let shown = show_symbol(s);
        let n: usize = out.len();
        if n > 0 && same(out[n - 1].0.as_str(), s.file.as_str()) {
            let mut last = out.remove(n - 1);
            let ghost l = run_view(last);
            assert(before.last() == l);
            last.1.push(shown);
            out.push(last);
            assert(run_views(out@) =~= before.drop_last().push((s.file@, l.1.push(shown@))));
        } else {
            let mut names: Vec<String> = Vec::new();
            names.push(shown);
            assert(text::views(names@) =~= seq![shown@]);
            out.push((s.file.clone(), names));
            assert(run_views(out@) =~= before.push((s.file@, seq![shown@])));
        }
        i += 1;
    }
    assert(sv.take(i as int) =~= sv);
    out
}

/// All symbols, a file to a line.
pub fn flat_symbol_section(
    symbols: &Vec<Symbol>,
    file_lines: &NameMap<usize>,
    max_lines: usize,
) -> (r: Option<String>)
    ensures
        text::opt_text(r) == flat_section(
            index::symbol_views(symbols@),
            file_lines@,
            max_lines as int,
        ),
{
    if symbols.len() == 0 || max_lines == 0 {
        return None;
    }
    let by_file = group_runs(symbols);
    let ghost rs = runs(index::symbol_views(symbols@));
    let ghost shown = first_n(rs, max_lines as int);
    let ghost goal = Seq::new(shown.len(), |i: int| run_line(file_lines@, shown[i]));
    assert(rs.len() == by_file@.len());
    let mut lines: Vec<String> = Vec::new();
    let mut i: usize = 0;
    while i < by_file.len() && i < max_lines
        invariant
            i <= by_file.len(),
            i <= max_lines,
            lines.len() == i,
            rs == run_views(by_file@),
            forall|k: int| 0 <= k < i ==> (#[trigger] lines@[k])@ == run_line(file_lines@, rs[k]),
        decreases by_file.len() - i,
    {
        let file = &by_file[i].0;
        let syms = &by_file[i].1;
        assert(rs[i as int] == (file@, text::views(syms@)));
        assert(text::views(syms@).len() == syms@.len());
        let names = if syms.len() > 12 {
            let some = first_strings(syms, 12);
            let mut s = join_with(&some, ", ");
            s.append(", … (");
            s.append(decimal_usize(syms.len()).as_str());
            s.append(" total)");
            s
        } else {
            join_with(syms, ", ")
        };
        let mut line = "  ".to_owned();
        line.append(file.as_str());
        let ghost base = line@;
        match file_lines.get(file.as_str()) {
            Some(n) => {
                let mut info = " (".to_owned();
                info.append(decimal_usize(*n).as_str());
                info.append(" lines)");
                line.append(info.as_str());
            },
            None => {
                assert(base =~= base + Seq::<char>::empty());
            },
        }
        line.append(": ");
        line.append(names.as_str());
        lines.push(line);
        i += 1;
    }
    assert(text::views(lines@) =~= goal);
    let mut out =
        "# Project symbol index\nUse these paths in the \"files\" field of each step:\n\n".to_owned();
    out.append(join_with(&lines, "\n").as_str());
    out.append("\n");
    Some(out)
}

impl ProjectGraph {
    /// What is said of a cluster below its heading.
    pub(crate) fn body_of_cluster(&self, c: &Cluster) -> (out: String)
        ensures
            out@ == cluster_body(*self, *c),
    {
        let mut out = String::new();
        assert(text::views(c.entry_files@).len() == c.entry_files@.len());
        if c.entry_files.len() > 0 {
            let parts = show_key_files(&self.file_lines, &c.entry_files);
            out.append("Key files: ");
            out.append(join_with(&parts, ", ").as_str());
            out.append("\n");
            assert(out@ =~= "Key files: "@ + pieces::join(text::views(parts@), ", "@) + "\n"@);
        }
        let syms = show_symbols_in(&self.symbols, &c.files);
        assert(text::views(syms@).len() == syms@.len());
        if syms.len() > 0 {
            let some = first_strings(&syms, 10);
            out.append(join_with(&some, ", ").as_str());
            let ghost base = out@;
            if syms.len() > 10 {
                let mut more = " … (".to_owned();
                more.append(decimal_usize(syms.len()).as_str());
                more.append(" symbols)");
                out.append(more.as_str());
            } else {
                assert(base =~= base + Seq::<char>::empty());
            }
            out.append("\n");
        }
        out
    }

    pub(crate) fn cluster_section(&self, c: &Cluster) -> (out: String)
        ensures
            out@ == cluster_text(*self, *c),
    {
        let mut out = "\n## ".to_owned();
        out.append(c.name.as_str());
        out.append(" (");
        out.append(decimal_usize(c.files.len()).as_str());
        out.append(" files)\n");
        out.append(self.body_of_cluster(c).as_str());
        out
    }

    /// The project's structure for the planning prompt: a cluster with its
    /// key files and symbols after the other.
    pub fn to_prompt_section(&self, max_clusters: usize) -> (r: Option<String>)
        ensures
            text::opt_text(r) == prompt_section(*self, max_clusters as int),
    {
        let n: usize = self.clusters.len();
        if n == 0 {
            return flat_symbol_section(&self.symbols, &self.file_lines, 60);
        }
        let mut total: u128 = 0;
        let mut i: usize = 0;
        assert(self.clusters@.take(0) =~= Seq::<Cluster>::empty());
        while i < n
            invariant
                i <= n,
                n == self.clusters.len(),
                total == total_files(self.clusters@.take(i as int)),
                total <= i * 0xffff_ffff_ffff_ffff,
            decreases n - i,
        {
            assert(self.clusters@.take(i + 1).drop_last() =~= self.clusters@.take(i as int));
            total += self.clusters[i].files.len() as u128;
            i += 1;
        }
        assert(self.clusters@.take(i as int) =~= self.clusters@);
        let mut out = "# Project structure — ".to_owned();
        out.append(decimal_usize(n).as_str());
        out.append(" clusters, ");
        out.append(decimal_big(total).as_str());
        out.append(" files\n");
        let ghost head = out@;
        let mut body = String::new();
        let mut j: usize = 0;
        while j < n && j < max_clusters
            invariant
                j <= n,
                j <= max_clusters,
                n == self.clusters.len(),
                body@ == clusters_text(*self, j as int),
            decreases n - j,
        {
            body.append(self.cluster_section(&self.clusters[j]).as_str());
            j += 1;
        }
        out.append(body.as_str());
        let ghost base = out@;
        if n > max_clusters {
            let mut more = "\n… and ".to_owned();
            more.append(decimal_usize(n - max_clusters).as_str());
            more.append(" more clusters\n");
            out.append(more.as_str());
        } else {
            assert(base =~= base + Seq::<char>::empty());
        }
        Some(out)
    }
}


// ── Keeping up with the files ────────────────────────────────────────────────

/// The list without `p`.
pub open spec fn without(list: Seq<Seq<char>>, p: Seq<char>) -> Seq<Seq<char>>
    decreases list.len(),
{
    if list.len() == 0 {
        list
    } else if list.last() == p {
        without(list.drop_last(), p)
    } else {
        without(list.drop_last(), p).push(list.last())
    }
}

/// The names without a file; a name that no file defines any more is gone.
pub open spec fn stripped(m: Map<Seq<char>, Seq<Seq<char>>>, p: Seq<char>) -> Map<
    Seq<char>,
    Seq<Seq<char>>,
> {
    Map::new(
        |k: Seq<char>| m.dom().contains(k) && without(m[k], p).len() > 0,
        |k: Seq<char>| without(m[k], p),
    )
}

fn without_file(list: &Vec<String>, p: &str) -> (r: Vec<String>)
    ensures
        text::views(r@) == without(text::views(list@), p@),
{
    let ghost all = text::views(list@);
    let mut out: Vec<String> = Vec::new();
    let mut i: usize = 0;
    assert(all.take(0) =~= Seq::<Seq<char>>::empty());
    assert(text::views(out@) =~= all.take(0));
    while i < list.len()
        invariant
            i <= list.len(),
            all == text::views(list@),
            text::views(out@) == without(all.take(i as int), p@),
        decreases list.len() - i,
    {
        assert(all.take(i + 1).drop_last() =~= all.take(i as int));
        assert(all.take(i + 1).last() == list@[i as int]@);
        if !same(list[i].as_str(), p) {
            out.push(list[i].clone());
        }
        i += 1;
    }
    assert(all.take(i as int) =~= all);
    out
}

fn strip_names(m: &NameMap<Vec<String>>, p: &str) -> (r: NameMap<Vec<String>>)
    ensures
        index::file_lists(r@) == stripped(index::file_lists(m@), p@),
{
    let n: usize = m.len();
    let ghost lists = index::file_lists(m@);
    let ghost keys = m.names();
    let mut out: NameMap<Vec<String>> = NameMap::new();
    let mut i: usize = 0;
    assert(index::file_lists(out@) =~= Map::<Seq<char>, Seq<Seq<char>>>::empty());
    while i < n
        invariant
            i <= n,
            n == keys.len(),
            keys == m.names(),
            m.keyed(),
            lists == index::file_lists(m@),
            forall|k: Seq<char>|
                #[trigger] index::file_lists(out@).dom().contains(k) <==> keys.take(
                    i as int,
                ).contains(k) && without(lists[k], p@).len() > 0,
            forall|k: Seq<char>| #[trigger]
                index::file_lists(out@).dom().contains(k) ==> index::file_lists(out@)[k] == without(
                    lists[k],
                    p@,
                ),
        decreases n - i,
    {
        let ghost before = out@;
        let ghost seen = keys.take(i as int);
        let ghost now = keys.take(i + 1);
        let key = m.key_at(i);
        let value = m.value_at(i);
        let kept = without_file(value, p);
        assert(text::views(kept@).len() == kept@.len());
        proof {
            assert(now =~= seen.push(key@));
            assert forall|k: Seq<char>| now.contains(k) == (seen.contains(k) || k == key@) by {
                if seen.contains(k) {
                    let j = choose|j: int| 0 <= j < seen.len() && seen[j] == k;
                    assert(now[j] == k);
                }
                if k == key@ {
                    assert(now[i as int] == k);
                }
            }
            assert(lists[key@] == text::views(value@));
        }
        if kept.len() > 0 {
            out.insert(key.clone(), kept);
        }
        proof {
            assert forall|k: Seq<char>| #[trigger]
                index::file_lists(out@).dom().contains(k) <==> now.contains(k) && without(
                    lists[k],
                    p@,
                ).len() > 0 by {
                assert(index::file_lists(before).dom().contains(k) <==> seen.contains(k) && without(
                    lists[k],
                    p@,
                ).len() > 0);
            }
            assert forall|k: Seq<char>| #[trigger]
                index::file_lists(out@).dom().contains(k) implies index::file_lists(out@)[k]
                == without(lists[k], p@) by {
                if k != key@ {
                    assert(index::file_lists(before).dom().contains(k));
                }
            }
        }
        i += 1;
    }
    assert(keys.take(i as int) =~= keys);
    assert(index::file_lists(out@) =~= stripped(lists, p@));
    out
}

/// The symbols of other files than `p`.
pub open spec fn kept_symbols(s: Seq<SymbolView>, p: Seq<char>) -> Seq<SymbolView>
    decreases s.len(),
{
    if s.len() == 0 {
        s
    } else if s.last().file == p {
        kept_symbols(s.drop_last(), p)
    } else {
        kept_symbols(s.drop_last(), p).push(s.last())
    }
}

/// The symbols of file `p`.
pub open spec fn symbols_of(s: Seq<SymbolView>, p: Seq<char>) -> Seq<SymbolView>
    decreases s.len(),
{
    if s.len() == 0 {
        s
    } else if s.last().file == p {
        symbols_of(s.drop_last(), p).push(s.last())
    } else {
        symbols_of(s.drop_last(), p)
    }
}

fn keep_symbols(symbols: &Vec<Symbol>, p: &str) -> (r: Vec<Symbol>)
    ensures
        index::symbol_views(r@) == kept_symbols(index::symbol_views(symbols@), p@),
{
    let ghost all = index::symbol_views(symbols@);
    let mut out: Vec<Symbol> = Vec::new();
    let mut i: usize = 0;
    assert(all.take(0) =~= Seq::<SymbolView>::empty());
    assert(index::symbol_views(out@) =~= all.take(0));
    while i < symbols.len()
        invariant
            i <= symbols.len(),
            all == index::symbol_views(symbols@),
            index::symbol_views(out@) == kept_symbols(all.take(i as int), p@),
        decreases symbols.len() - i,
    {
        assert(all.take(i + 1).drop_last() =~= all.take(i as int));
        assert(all.take(i + 1).last() == symbols@[i as int]@);
        if !same(symbols[i].file.as_str(), p) {
            let ghost before = index::symbol_views(out@);
            out.push(symbols[i].clone());
            assert(index::symbol_views(out@) =~= before.push(symbols@[i as int]@));
        }
        i += 1;
    }
    assert(all.take(i as int) =~= all);
    out
}

/// What the graph knows of symbols.
pub struct Known {
    pub symbols: Seq<SymbolView>,
    pub names: Map<Seq<char>, Seq<Seq<char>>>,
    pub lens: Map<Seq<char>, usize>,
}

pub open spec fn known(g: ProjectGraph) -> Known {
    Known {
        symbols: index::symbol_views(g.symbols@),
        names: index::file_lists(g.by_name@),
        lens: g.file_lines@,
    }
}

/// What reading files again has no part in: the form of the graph, the time
/// of its last update, and who calls and constructs what.
pub open spec fn beside(g: ProjectGraph) -> (
    u32,
    i64,
    Map<Seq<char>, Vec<CallEdge>>,
    Map<Seq<char>, Vec<CallEdge>>,
) {
    (g.schema_version, g.last_indexed, g.call_edges@, g.construct_edges@)
}

/// The names with the files of new symbols, each file once to a name.
pub open spec fn names_with(
    m: Map<Seq<char>, Seq<Seq<char>>>,
    new: Seq<SymbolView>,
) -> Map<Seq<char>, Seq<Seq<char>>>
    decreases new.len(),
{
    if new.len() == 0 {
        m
    } else {
        let r = names_with(m, new.drop_last());
        r.insert(
            new.last().name,
            with_new(index::list_at(r, new.last().name), new.last().file),
        )
    }
}

/// What is known once a file was read again; a file that cannot be read
/// loses its symbols and keeps its line count.
pub open spec fn reread(k: Known, path: Seq<char>, content: Option<Seq<char>>) -> Known {
    let symbols = kept_symbols(k.symbols, path);
    let names = stripped(k.names, path);
    match content {
        Some(c) => Known {
            symbols: symbols + index::file_symbols(c, path),
            names: names_with(names, index::file_symbols(c, path)),
            lens: k.lens.insert(path, pieces::lines(c).len() as usize),
        },
        None => Known { symbols, names, lens: k.lens },
    }
}

pub open spec fn reread_all(k: Known, files: Seq<(Seq<char>, Option<Seq<char>>)>) -> Known
    decreases files.len(),
{
    if files.len() == 0 {
        k
    } else {
        reread(reread_all(k, files.drop_last()), files.last().0, files.last().1)
    }
}

/// Files with what they hold, where it could be read.
pub open spec fn file_views(files: Seq<(String, Option<String>)>) -> Seq<
    (Seq<char>, Option<Seq<char>>),
> {
    Seq::new(files.len(), |i: int| (files[i].0@, text::opt_text(files[i].1)))
}

/// What is known with the end lines of the symbols, where one is missing.
pub open spec fn with_end_lines(k: Known) -> Known {
    if exists|i: int| 0 <= i < k.symbols.len() && (#[trigger] k.symbols[i]).end_line == 0 {
        Known { symbols: index::with_ends(k.symbols, k.lens), ..k }
    } else {
        k
    }
}

/// The files that are new or have another hash than they had.
pub open spec fn changed(
    keys: Seq<Seq<char>>,
    current: Map<Seq<char>, String>,
    had: Map<Seq<char>, String>,
) -> Seq<Seq<char>>
    decreases keys.len(),
{
    if keys.len() == 0 {
        keys
    } else {
        let r = changed(keys.drop_last(), current, had);
        let k = keys.last();
        if had.dom().contains(k) && had[k]@ == current[k]@ {
            r
        } else {
            r.push(k)
        }
    }
}

/// The files that are no longer there.
pub open spec fn vanished(keys: Seq<Seq<char>>, current: Map<Seq<char>, String>) -> Seq<Seq<char>>
    decreases keys.len(),
{
    if keys.len() == 0 {
        keys
    } else if current.dom().contains(keys.last()) {
        vanished(keys.drop_last(), current)
    } else {
        vanished(keys.drop_last(), current).push(keys.last())
    }
}

/// What is known without a file.
pub open spec fn removed(k: Known, path: Seq<char>) -> Known {
    Known {
        symbols: kept_symbols(k.symbols, path),
        names: stripped(k.names, path),
        lens: k.lens.remove(path),
    }
}

pub open spec fn removed_all(k: Known, paths: Seq<Seq<char>>) -> Known
    decreases paths.len(),
{
    if paths.len() == 0 {
        k
    } else {
        removed(removed_all(k, paths.drop_last()), paths.last())
    }
}

/// Files with what they hold, where it is given.
pub open spec fn held(paths: Seq<Seq<char>>, contents: Map<Seq<char>, String>) -> Seq<
    (Seq<char>, Option<Seq<char>>),
> {
    Seq::new(
        paths.len(),
        |i: int|
            (
                paths[i],
                if contents.dom().contains(paths[i]) {
                    Some(contents[paths[i]]@)
                } else {
                    None
                },
            ),
    )
}

/// What is known once files have gone and others have changed.
pub open spec fn updated(
    k: Known,
    gone: Seq<Seq<char>>,
    stale: Seq<Seq<char>>,
    contents: Map<Seq<char>, String>,
) -> Known {
    let r = removed_all(k, gone);
    if stale.len() == 0 {
        r
    } else {
        settled(reread_all(r, held(stale, contents)))
    }
}

/// The symbols sorted, with their end lines.
pub open spec fn settled(k: Known) -> Known {
    Known {
        symbols: index::with_ends(order::sorted_by(k.symbols, index::by_place()), k.lens),
        ..k
    }
}

fn add_names(m: &mut NameMap<Vec<String>>, new: &Vec<Symbol>)
    ensures
        index::file_lists(final(m)@) == names_with(
            index::file_lists(old(m)@),
            index::symbol_views(new@),
        ),
{
    let ghost start = index::file_lists(m@);
    let ghost nv = index::symbol_views(new@);
    let mut i: usize = 0;
    assert(nv.take(0) =~= Seq::<SymbolView>::empty());
    while i < new.len()
        invariant
            i <= new.len(),
            nv == index::symbol_views(new@),
            index::file_lists(m@) == names_with(start, nv.take(i as int)),
        decreases new.len() - i,
    {
        let s = &new[i];
        let ghost before = m@;
        proof {
            assert(nv.take(i + 1).drop_last() =~= nv.take(i as int));
            assert(nv.take(i + 1).last() == s@);
        }
        let mut files = match m.remove(s.name.as_str()) {
            Some(f) => f,
            None => Vec::new(),
        };
        assert(text::views(files@) =~= index::list_at(index::file_lists(before), s.name@));
        push_new(&mut files, s.file.as_str());
        m.insert(s.name.clone(), files);
        assert(index::file_lists(m@) =~= names_with(start, nv.take(i + 1)));
        i += 1;
    }
    assert(nv.take(i as int) =~= nv);
}

impl ProjectGraph {
    /// A graph made from scratch.
    pub fn build_fresh(idx: SymbolIndex, file_hashes: NameMap<String>, now: i64) -> (g: Self)
        ensures
            g.schema_version == SCHEMA_VERSION,
            g.file_hashes@ == file_hashes@,
            g.file_lines@ == idx.file_lines@,
            g.symbols@ == idx.symbols@,
            g.by_name@ == idx.by_name@,
            clustered(g.clusters@, g.symbols@, g.file_lines@.dom()),
            g.last_indexed == now,
            g.call_edges@ == Map::<Seq<char>, Vec<CallEdge>>::empty(),
            g.construct_edges@ == Map::<Seq<char>, Vec<CallEdge>>::empty(),
    {
        let clusters = build_clusters(&idx.symbols, &idx.file_lines);
        ProjectGraph {
            schema_version: SCHEMA_VERSION,
            file_hashes,
            file_lines: idx.file_lines,
            symbols: idx.symbols,
            by_name: idx.by_name,
            clusters,
            last_indexed: now,
            call_edges: NameMap::new(),
            construct_edges: NameMap::new(),
        }
    }

    /// Whether a saved graph can be used.
    pub fn usable(&self) -> (r: bool)
        ensures
            r == (self.schema_version == SCHEMA_VERSION),
    {
        self.schema_version == SCHEMA_VERSION
    }

    /// Fills in the end lines of a saved graph in which one is missing.
    pub fn fill_end_lines(&mut self)
        ensures
            known(*final(self)) == with_end_lines(known(*old(self))),
            final(self).file_hashes == old(self).file_hashes,
            final(self).clusters == old(self).clusters,
            beside(*final(self)) == beside(*old(self)),
    {
        let ghost all = known(*self).symbols;
        let mut missing: bool = false;
        let mut i: usize = 0;
        while i < self.symbols.len()
            invariant
                i <= self.symbols.len(),
                *self == *old(self),
                all == index::symbol_views(self.symbols@),
                missing == exists|k: int| 0 <= k < i && (#[trigger] all[k]).end_line == 0,
            decreases self.symbols.len() - i,
        {
            assert(all[i as int] == self.symbols@[i as int]@);
            if self.symbols[i].end_line == 0 {
                missing = true;
            }
            i += 1;
        }
        if missing {
            compute_end_lines(&mut self.symbols, &self.file_lines);
        }
    }

    /// The files that are new or have changed.
    pub fn stale_files(&self, current: &NameMap<String>) -> (r: Vec<String>)
        ensures
            text::views(r@) == changed(current.names(), current@, self.file_hashes@),
            text::views(r@).no_duplicates(),
            forall|f: Seq<char>|
                #[trigger] text::views(r@).contains(f) <==> current@.dom().contains(f) && !(
                self.file_hashes@.dom().contains(f) && self.file_hashes@[f]@ == current@[f]@),
    {
        let n: usize = current.len();
        let ghost keys = current.names();
        let mut out: Vec<String> = Vec::new();
        let mut i: usize = 0;
        while i < n
            invariant
                i <= n,
                n == keys.len(),
                keys == current.names(),
                current.keyed(),
                text::views(out@) == changed(keys.take(i as int), current@, self.file_hashes@),
                text::views(out@).no_duplicates(),
                forall|f: Seq<char>|
                    #[trigger] text::views(out@).contains(f) <==> keys.take(i as int).contains(f)
                        && !(self.file_hashes@.dom().contains(f) && self.file_hashes@[f]@
                        == current@[f]@),
            decreases n - i,
        {
            let key = current.key_at(i);
            let hash = current.value_at(i);
            let fresh = match self.file_hashes.get(key.as_str()) {
                Some(h) => same(h.as_str(), hash.as_str()),
                None => false,
            };
            let ghost before = text::views(out@);
            proof {
                take_one_more(keys, i as int);
                assert(keys.take(i + 1).drop_last() =~= keys.take(i as int));
                assert(keys.take(i + 1).last() == keys[i as int]);
            }
            if !fresh {
                out.push(key.clone());
                proof {
                    push_one(before, key@);
                    assert(!before.contains(key@));
                }
            }
            i += 1;
        }
        assert(keys.take(i as int) =~= keys);
        out
    }

    /// The files that are no longer there.
    pub fn gone_files(&self, current: &NameMap<String>) -> (r: Vec<String>)
        ensures
            text::views(r@) == vanished(self.file_hashes.names(), current@),
            text::views(r@).no_duplicates(),
            forall|f: Seq<char>|
                #[trigger] text::views(r@).contains(f) <==> self.file_hashes@.dom().contains(f)
                    && !current@.dom().contains(f),
    {
        let n: usize = self.file_hashes.len();
        let ghost keys = self.file_hashes.names();
        let mut out: Vec<String> = Vec::new();
        let mut i: usize = 0;
        while i < n
            invariant
                i <= n,
                n == keys.len(),
                keys == self.file_hashes.names(),
                self.file_hashes.keyed(),
                text::views(out@) == vanished(keys.take(i as int), current@),
                text::views(out@).no_duplicates(),
                forall|f: Seq<char>|
                    #[trigger] text::views(out@).contains(f) <==> keys.take(i as int).contains(f)
                        && !current@.dom().contains(f),
            decreases n - i,
        {
            let key = self.file_hashes.key_at(i);
            let ghost before = text::views(out@);
            proof {
                take_one_more(keys, i as int);
                assert(keys.take(i + 1).drop_last() =~= keys.take(i as int));
                assert(keys.take(i + 1).last() == keys[i as int]);
            }
            if !current.contains(key.as_str()) {
                out.push(key.clone());
                proof {
                    push_one(before, key@);
                    assert(!before.contains(key@));
                }
            }
            i += 1;
        }
        assert(keys.take(i as int) =~= keys);
        out
    }

    /// Takes a file out of the graph.
    pub fn remove_file(&mut self, path: &str)
        ensures
            known(*final(self)) == removed(known(*old(self)), path@),
            final(self).file_hashes@ == old(self).file_hashes@.remove(path@),
            final(self).clusters == old(self).clusters,
            beside(*final(self)) == beside(*old(self)),
    {
        self.symbols = keep_symbols(&self.symbols, path);
        self.file_lines.remove(path);
        self.file_hashes.remove(path);
        self.by_name = strip_names(&self.by_name, path);
    }

    /// Takes in files that were read again: each with its content, or
    /// without where it could not be read.
    pub fn reindex_files(&mut self, files: &Vec<(String, Option<String>)>)
        ensures
            known(*final(self)) == settled(reread_all(known(*old(self)), file_views(files@))),
            final(self).file_hashes == old(self).file_hashes,
            final(self).clusters == old(self).clusters,
            beside(*final(self)) == beside(*old(self)),
    {
        let ghost start = known(*self);
        let ghost fv = file_views(files@);
        let mut i: usize = 0;
        assert(fv.take(0) =~= Seq::<(Seq<char>, Option<Seq<char>>)>::empty());
        while i < files.len()
            invariant
                i <= files.len(),
                fv == file_views(files@),
                known(*self) == reread_all(start, fv.take(i as int)),
                self.file_hashes == old(self).file_hashes,
                self.clusters == old(self).clusters,
                beside(*self) == beside(*old(self)),
            decreases files.len() - i,
        {
            let path = files[i].0.as_str();
            proof {
                assert(fv.take(i + 1).drop_last() =~= fv.take(i as int));
                assert(fv.take(i + 1).last() == fv[i as int]);
            }
            let ghost before = known(*self);
            self.symbols = keep_symbols(&self.symbols, path);
            self.by_name = strip_names(&self.by_name, path);
            match &files[i].1 {
                Some(content) => {
                    let ls = lines_of(content.as_str());
                    assert(text::views(ls@).len() == ls@.len());
                    self.file_lines.insert(path.to_owned(), ls.len());
                    let mut fresh: Vec<Symbol> = Vec::new();
                    extract_symbols(content.as_str(), path, &mut fresh);
                    assert(fresh@.skip(0) =~= fresh@);
                    add_names(&mut self.by_name, &fresh);
                    let ghost kept = index::symbol_views(self.symbols@);
                    let ghost more = index::symbol_views(fresh@);
                    self.symbols.append(&mut fresh);
                    assert(index::symbol_views(self.symbols@) =~= kept + more);
                },
                None => {},
            }
            assert(known(*self) == reread(before, path@, text::opt_text(files@[i as int].1)));
            i += 1;
        }
        assert(fv.take(i as int) =~= fv);
        sort_symbols(&mut self.symbols);
        compute_end_lines(&mut self.symbols, &self.file_lines);
    }

    /// Ends an update: the hashes are the current ones, and the clusters are
    /// made anew.
    pub fn finish_update(&mut self, current: NameMap<String>, now: i64)
        ensures
            final(self).file_hashes == current,
            clustered(final(self).clusters@, final(self).symbols@, final(self).file_lines@.dom()),
            final(self).last_indexed == now,
            final(self).symbols == old(self).symbols,
            final(self).by_name == old(self).by_name,
            final(self).file_lines == old(self).file_lines,
            beside(*final(self)) == (
                old(self).schema_version,
                now,
                old(self).call_edges@,
                old(self).construct_edges@,
            ),
    {
        self.file_hashes = current;
        self.clusters = build_clusters(&self.symbols, &self.file_lines);
        self.last_indexed = now;
    }

    /// Takes out the files that have gone and reads again those whose hash
    /// has changed; `contents` holds those of them that could be read.
    pub fn incremental_update(
        &mut self,
        current: NameMap<String>,
        contents: &NameMap<String>,
        now: i64,
    )
        ensures
            known(*final(self)) == updated(
                known(*old(self)),
                vanished(old(self).file_hashes.names(), current@),
                changed(current.names(), current@, old(self).file_hashes@),
                contents@,
            ),
            final(self).file_hashes == current,
            clustered(final(self).clusters@, final(self).symbols@, final(self).file_lines@.dom()),
            beside(*final(self)) == (
                old(self).schema_version,
                now,
                old(self).call_edges@,
                old(self).construct_edges@,
            ),
    {
        let stale = self.stale_files(&current);
        let gone = self.gone_files(&current);
        let ghost start = known(*self);
        let ghost gv = text::views(gone@);
        let ghost sv = text::views(stale@);
        assert(sv.len() == stale@.len());
        let mut i: usize = 0;
        assert(gv.take(0) =~= Seq::<Seq<char>>::empty());
        while i < gone.len()
            invariant
                i <= gone.len(),
                gv == text::views(gone@),
                known(*self) == removed_all(start, gv.take(i as int)),
                beside(*self) == beside(*old(self)),
            decreases gone.len() - i,
        {
            assert(gv.take(i + 1).drop_last() =~= gv.take(i as int));
            assert(gv.take(i + 1).last() == gone@[i as int]@);
            self.remove_file(gone[i].as_str());
            i += 1;
        }
        assert(gv.take(i as int) =~= gv);
        if stale.len() > 0 {
            let mut files: Vec<(String, Option<String>)> = Vec::new();
            let mut j: usize = 0;
            while j < stale.len()
                invariant
                    j <= stale.len(),
                    files.len() == j,
                    sv == text::views(stale@),
                    forall|k: int|
                        0 <= k < j ==> (
                        (#[trigger] files@[k]).0@,
                        text::opt_text(files@[k].1),
                    ) == held(sv, contents@)[k],
                decreases stale.len() - j,
            {
                let content = match contents.get(stale[j].as_str()) {
                    Some(c) => Some(c.clone()),
                    None => None,
                };
                files.push((stale[j].clone(), content));
                j += 1;
            }
            assert(file_views(files@) =~= held(sv, contents@));
            self.reindex_files(&files);
        }
        self.finish_update(current, now);
    }

    /// A saved graph that can be used, with its end lines filled in.
    pub fn warm(saved: Option<ProjectGraph>) -> (r: Option<ProjectGraph>)
        ensures
            r is Some <==> saved is Some && saved->0.schema_version == SCHEMA_VERSION,
            r matches Some(g) ==> known(g) == with_end_lines(known(saved->0)) && g.file_hashes
                == saved->0.file_hashes && g.clusters == saved->0.clusters && beside(g) == beside(
                saved->0,
            ),
    {
        match saved {
            Some(g) => {
                if g.usable() {
                    let mut g = g;
                    g.fill_end_lines();
                    Some(g)
                } else {
                    None
                }
            },
            None => None,
        }
    }
}

proof fn take_one_more(keys: Seq<Seq<char>>, i: int)
    requires
        0 <= i < keys.len(),
        keys.no_duplicates(),
    ensures
        !keys.take(i).contains(keys[i]),
        forall|f: Seq<char>|
            #[trigger] keys.take(i + 1).contains(f) == (keys.take(i).contains(f) || f == keys[i]),
{
    let seen = keys.take(i);
    let now = keys.take(i + 1);
    if seen.contains(keys[i]) {
        let k = choose|k: int| 0 <= k < seen.len() && seen[k] == keys[i];
        assert(keys[k] == keys[i]);
    }
    assert forall|f: Seq<char>| #[trigger] now.contains(f) == (seen.contains(f) || f == keys[i]) by {
        if seen.contains(f) {
            let k = choose|k: int| 0 <= k < seen.len() && seen[k] == f;
            assert(now[k] == f);
        }
        if f == keys[i] {
            assert(now[i] == f);
        }
        if now.contains(f) {
            let k = choose|k: int| 0 <= k < now.len() && now[k] == f;
            if k < i {
                assert(seen[k] == f);
            }
        }
    }
}

proof fn push_one(s: Seq<Seq<char>>, x: Seq<char>)
    ensures
        forall|f: Seq<char>| #[trigger] s.push(x).contains(f) == (s.contains(f) || f == x),
{
    assert forall|f: Seq<char>| #[trigger] s.push(x).contains(f) == (s.contains(f) || f == x) by {
        if s.contains(f) {
            let k = choose|k: int| 0 <= k < s.len() && s[k] == f;
            assert(s.push(x)[k] == f);
        }
        if f == x {
            assert(s.push(x)[s.len() as int] == f);
        }
    }
}

proof fn symbols_of_file(content: Seq<char>, file: Seq<char>, n: int)
    ensures
        forall|i: int|
            0 <= i < index::symbols_upto(
                pieces::lines(content),
                paths::extension(file),
                file,
                n,
            ).len() ==> (#[trigger] index::symbols_upto(
                pieces::lines(content),
                paths::extension(file),
                file,
                n,
            )[i]).file == file,
    decreases n,
{
    if n > 0 {
        symbols_of_file(content, file, n - 1);
    }
}

proof fn kept_of(s: Seq<SymbolView>, p: Seq<char>, q: Seq<char>)
    ensures
        p != q ==> symbols_of(kept_symbols(s, p), q) == symbols_of(s, q),
        symbols_of(kept_symbols(s, p), p) == Seq::<SymbolView>::empty(),
    decreases s.len(),
{
    if s.len() > 0 {
        kept_of(s.drop_last(), p, q);
        let r = kept_symbols(s.drop_last(), p);
        if s.last().file != p {
            assert(r.push(s.last()).drop_last() =~= r);
        }
    }
}

proof fn symbols_of_add(a: Seq<SymbolView>, b: Seq<SymbolView>, p: Seq<char>)
    ensures
        symbols_of(a + b, p) == symbols_of(a, p) + symbols_of(b, p),
    decreases b.len(),
{
    if b.len() == 0 {
        assert(a + b =~= a);
        assert(symbols_of(a, p) + symbols_of(b, p) =~= symbols_of(a, p));
    } else {
        symbols_of_add(a, b.drop_last(), p);
        assert((a + b).drop_last() =~= a + b.drop_last());
        assert(symbols_of(a, p) + symbols_of(b, p) =~= symbols_of(a + b, p));
    }
}

proof fn symbols_of_all(s: Seq<SymbolView>, p: Seq<char>, q: Seq<char>)
    requires
        forall|i: int| 0 <= i < s.len() ==> (#[trigger] s[i]).file == p,
    ensures
        symbols_of(s, q) == (if p == q {
            s
        } else {
            Seq::<SymbolView>::empty()
        }),
    decreases s.len(),
{
    if s.len() > 0 {
        symbols_of_all(s.drop_last(), p, q);
        assert(s.drop_last().push(s.last()) =~= s);
    }
}

/// Reading a file again replaces its symbols by those of its content and
/// leaves the symbols of every other file as they were.
pub proof fn reread_replaces(k: Known, path: Seq<char>, content: Option<Seq<char>>, other: Seq<char>)
    ensures
        other != path ==> symbols_of(reread(k, path, content).symbols, other) == symbols_of(
            k.symbols,
            other,
        ),
        symbols_of(reread(k, path, content).symbols, path) == (match content {
            Some(c) => index::file_symbols(c, path),
            None => Seq::<SymbolView>::empty(),
        }),
{
    kept_of(k.symbols, path, other);
    let kept = kept_symbols(k.symbols, path);
    match content {
        Some(c) => {
            let new = index::file_symbols(c, path);
            symbols_of_file(c, path, pieces::lines(c).len() as int);
            symbols_of_add(kept, new, other);
            symbols_of_add(kept, new, path);
            symbols_of_all(new, path, other);
            symbols_of_all(new, path, path);
            assert(symbols_of(kept, other) + Seq::<SymbolView>::empty() =~= symbols_of(kept, other));
            assert(Seq::<SymbolView>::empty() + new =~= new);
        },
        None => {},
    }
}

/// A file that was taken out defines nothing any more, and no name keeps it.
pub proof fn removed_is_gone(g: Known, path: Seq<char>, name: Seq<char>)
    ensures
        symbols_of(kept_symbols(g.symbols, path), path) == Seq::<SymbolView>::empty(),
        stripped(g.names, path).dom().contains(name) ==> !stripped(g.names, path)[name].contains(path),
{
    kept_of(g.symbols, path, path);
    without_has_none(g.names[name], path);
}

proof fn removed_all_symbols(k: Known, gone: Seq<Seq<char>>, f: Seq<char>)
    ensures
        symbols_of(removed_all(k, gone).symbols, f) == (if gone.contains(f) {
            Seq::<SymbolView>::empty()
        } else {
            symbols_of(k.symbols, f)
        }),
    decreases gone.len(),
{
    if gone.len() > 0 {
        let t = gone.drop_last();
        removed_all_symbols(k, t, f);
        kept_of(removed_all(k, t).symbols, gone.last(), f);
        push_one(t, gone.last());
        assert(t.push(gone.last()) =~= gone);
    }
}

proof fn reread_all_symbols(
    k: Known,
    stale: Seq<Seq<char>>,
    contents: Map<Seq<char>, String>,
    f: Seq<char>,
)
    ensures
        symbols_of(reread_all(k, held(stale, contents)).symbols, f) == (if stale.contains(f) {
            if contents.dom().contains(f) {
                index::file_symbols(contents[f]@, f)
            } else {
                Seq::<SymbolView>::empty()
            }
        } else {
            symbols_of(k.symbols, f)
        }),
    decreases stale.len(),
{
    if stale.len() > 0 {
        let t = stale.drop_last();
        let h = held(stale, contents);
        reread_all_symbols(k, t, contents, f);
        assert(h.drop_last() =~= held(t, contents));
        reread_replaces(reread_all(k, h.drop_last()), h.last().0, h.last().1, f);
        push_one(t, stale.last());
        assert(t.push(stale.last()) =~= stale);
    }
}

/// Once files have gone and others were read again, each file has the
/// symbols that its content has: those that are gone none, those that were
/// read again the ones found there, and all others the ones that they had.
pub proof fn update_follows_the_files(
    k: Known,
    gone: Seq<Seq<char>>,
    stale: Seq<Seq<char>>,
    contents: Map<Seq<char>, String>,
    f: Seq<char>,
)
    ensures
        symbols_of(reread_all(removed_all(k, gone), held(stale, contents)).symbols, f) == (
        if stale.contains(f) {
            if contents.dom().contains(f) {
                index::file_symbols(contents[f]@, f)
            } else {
                Seq::<SymbolView>::empty()
            }
        } else if gone.contains(f) {
            Seq::<SymbolView>::empty()
        } else {
            symbols_of(k.symbols, f)
        }),
{
    removed_all_symbols(k, gone, f);
    reread_all_symbols(removed_all(k, gone), stale, contents, f);
}

proof fn without_has_none(list: Seq<Seq<char>>, p: Seq<char>)
    ensures
        !without(list, p).contains(p),
    decreases list.len(),
{
    if list.len() > 0 {
        without_has_none(list.drop_last(), p);
        let r = without(list.drop_last(), p);
        if list.last() != p {
            push_one(r, list.last());
        }
    }
}

/// Whether file `f` defines `name`.
pub open spec fn defines(s: Seq<SymbolView>, name: Seq<char>, f: Seq<char>) -> bool {
    exists|i: int| 0 <= i < s.len() && (#[trigger] s[i]).name == name && s[i].file == f
}

/// Whether the names tell of the symbols: a file stands with a name just
/// where it defines it, and once; and no name stands with no file.
pub open spec fn names_agree(m: Map<Seq<char>, Seq<Seq<char>>>, s: Seq<SymbolView>) -> bool {
    &&& forall|n: Seq<char>, f: Seq<char>|
        #![trigger index::list_at(m, n).contains(f)]
        #![trigger defines(s, n, f)]
        index::list_at(m, n).contains(f) == defines(s, n, f)
    &&& forall|n: Seq<char>| #[trigger]
        m.dom().contains(n) ==> m[n].len() > 0 && m[n].no_duplicates()
}

proof fn defines_push(s: Seq<SymbolView>, x: SymbolView, n: Seq<char>, f: Seq<char>)
    ensures
        defines(s.push(x), n, f) == (defines(s, n, f) || (x.name == n && x.file == f)),
{
    let t = s.push(x);
    if defines(s, n, f) {
        let i = choose|i: int| 0 <= i < s.len() && (#[trigger] s[i]).name == n && s[i].file == f;
        assert(t[i] == s[i]);
    }
    if x.name == n && x.file == f {
        assert(t[s.len() as int] == x);
    }
    if defines(t, n, f) {
        let i = choose|i: int| 0 <= i < t.len() && (#[trigger] t[i]).name == n && t[i].file == f;
        if i < s.len() {
            assert(t[i] == s[i]);
        }
    }
}

proof fn without_keeps(list: Seq<Seq<char>>, p: Seq<char>, f: Seq<char>)
    ensures
        without(list, p).contains(f) == (list.contains(f) && f != p),
    decreases list.len(),
{
    if list.len() > 0 {
        let t = list.drop_last();
        without_keeps(t, p, f);
        push_one(t, list.last());
        push_one(without(t, p), list.last());
        assert(t.push(list.last()) =~= list);
    }
}

proof fn without_is_single(list: Seq<Seq<char>>, p: Seq<char>)
    requires
        list.no_duplicates(),
    ensures
        without(list, p).no_duplicates(),
    decreases list.len(),
{
    if list.len() > 0 {
        let t = list.drop_last();
        without_is_single(t, p);
        without_keeps(t, p, list.last());
        push_single(without(t, p), list.last());
    }
}

proof fn push_single(list: Seq<Seq<char>>, f: Seq<char>)
    requires
        list.no_duplicates(),
    ensures
        !list.contains(f) ==> list.push(f).no_duplicates(),
{
    let r = list.push(f);
    if !list.contains(f) {
        assert forall|i: int, j: int| 0 <= i < r.len() && 0 <= j < r.len() && i != j implies r[i]
            != r[j] by {
            if i < list.len() && j < list.len() {
                assert(list[i] != list[j]);
            } else if i < list.len() {
                assert(list.contains(list[i]));
            } else {
                assert(list.contains(list[j]));
            }
        }
    }
}

proof fn kept_defines(s: Seq<SymbolView>, p: Seq<char>, n: Seq<char>, f: Seq<char>)
    ensures
        defines(kept_symbols(s, p), n, f) == (defines(s, n, f) && f != p),
    decreases s.len(),
{
    if s.len() > 0 {
        let t = s.drop_last();
        kept_defines(t, p, n, f);
        defines_push(t, s.last(), n, f);
        defines_push(kept_symbols(t, p), s.last(), n, f);
        assert(t.push(s.last()) =~= s);
    }
}

proof fn removed_agrees(k: Known, path: Seq<char>)
    requires
        names_agree(k.names, k.symbols),
    ensures
        names_agree(stripped(k.names, path), kept_symbols(k.symbols, path)),
{
    let m = stripped(k.names, path);
    let s = kept_symbols(k.symbols, path);
    assert forall|n: Seq<char>, f: Seq<char>|
        #![trigger index::list_at(m, n).contains(f)]
        #![trigger defines(s, n, f)]
        index::list_at(m, n).contains(f) == defines(s, n, f) by {
        kept_defines(k.symbols, path, n, f);
        without_keeps(index::list_at(k.names, n), path, f);
        assert(index::list_at(k.names, n).contains(f) == defines(k.symbols, n, f));
    }
    assert forall|n: Seq<char>| #[trigger] m.dom().contains(n) implies m[n].no_duplicates() by {
        assert(k.names.dom().contains(n));
        without_is_single(k.names[n], path);
    }
}

proof fn added_agrees(m: Map<Seq<char>, Seq<Seq<char>>>, s: Seq<SymbolView>, new: Seq<SymbolView>)
    requires
        names_agree(m, s),
    ensures
        names_agree(names_with(m, new), s + new),
    decreases new.len(),
{
    if new.len() == 0 {
        assert(s + new =~= s);
    } else {
        let t = new.drop_last();
        let x = new.last();
        added_agrees(m, s, t);
        let r = names_with(m, t);
        let r2 = names_with(m, new);
        assert((s + t).push(x) =~= s + new);
        assert forall|n: Seq<char>, f: Seq<char>|
            #![trigger index::list_at(r2, n).contains(f)]
            #![trigger defines(s + new, n, f)]
            index::list_at(r2, n).contains(f) == defines(s + new, n, f) by {
            defines_push(s + t, x, n, f);
            push_one(index::list_at(r, x.name), x.file);
            assert(index::list_at(r, n).contains(f) == defines(s + t, n, f));
        }
        push_single(index::list_at(r, x.name), x.file);
        assert(with_new(index::list_at(r, x.name), x.file).len() > 0) by {
            if index::list_at(r, x.name).contains(x.file) {
                let i = choose|i: int|
                    0 <= i < index::list_at(r, x.name).len() && index::list_at(r, x.name)[i] == x.file;
                assert(index::list_at(r, x.name).len() > 0);
            }
        }
    }
}

/// Where the names tell of the symbols, they still do once a file was taken
/// out or read again, or missing end lines were filled in.
pub proof fn names_stay_true(k: Known, path: Seq<char>, content: Option<Seq<char>>)
    requires
        names_agree(k.names, k.symbols),
    ensures
        names_agree(removed(k, path).names, removed(k, path).symbols),
        names_agree(reread(k, path, content).names, reread(k, path, content).symbols),
        names_agree(with_end_lines(k).names, with_end_lines(k).symbols),
{
    removed_agrees(k, path);
    assert forall|n: Seq<char>, f: Seq<char>|
        #![trigger index::list_at(k.names, n).contains(f)]
        #![trigger defines(with_end_lines(k).symbols, n, f)]
        index::list_at(k.names, n).contains(f) == defines(with_end_lines(k).symbols, n, f) by {
        ends_define(k.symbols, k.lens, n, f);
        assert(index::list_at(k.names, n).contains(f) == defines(k.symbols, n, f));
    }
    if let Some(c) = content {
        added_agrees(
            stripped(k.names, path),
            kept_symbols(k.symbols, path),
            index::file_symbols(c, path),
        );
    }
}

proof fn removed_all_agrees(k: Known, gone: Seq<Seq<char>>)
    requires
        names_agree(k.names, k.symbols),
    ensures
        names_agree(removed_all(k, gone).names, removed_all(k, gone).symbols),
    decreases gone.len(),
{
    if gone.len() > 0 {
        removed_all_agrees(k, gone.drop_last());
        names_stay_true(removed_all(k, gone.drop_last()), gone.last(), None);
    }
}

proof fn reread_all_agrees(k: Known, files: Seq<(Seq<char>, Option<Seq<char>>)>)
    requires
        names_agree(k.names, k.symbols),
    ensures
        names_agree(reread_all(k, files).names, reread_all(k, files).symbols),
    decreases files.len(),
{
    if files.len() > 0 {
        let t = files.drop_last();
        reread_all_agrees(k, t);
        names_stay_true(reread_all(k, t), files.last().0, files.last().1);
    }
}

proof fn same_symbols_define(a: Seq<SymbolView>, b: Seq<SymbolView>, n: Seq<char>, f: Seq<char>)
    requires
        a.to_multiset() == b.to_multiset(),
    ensures
        defines(a, n, f) ==> defines(b, n, f),
{
    broadcast use vstd::seq_lib::group_to_multiset_ensures;

    if defines(a, n, f) {
        let i = choose|i: int| 0 <= i < a.len() && (#[trigger] a[i]).name == n && a[i].file == f;
        assert(a.contains(a[i]));
        assert(a.to_multiset().count(a[i]) > 0);
        assert(b.contains(a[i]));
        let j = choose|j: int| 0 <= j < b.len() && b[j] == a[i];
        assert(b[j].name == n);
    }
}

proof fn ends_define(s: Seq<SymbolView>, lens: Map<Seq<char>, usize>, n: Seq<char>, f: Seq<char>)
    ensures
        defines(index::with_ends(s, lens), n, f) == defines(s, n, f),
{
    let t = index::with_ends(s, lens);
    if defines(s, n, f) {
        let i = choose|i: int| 0 <= i < s.len() && (#[trigger] s[i]).name == n && s[i].file == f;
        assert(t[i].name == n && t[i].file == f);
    }
    if defines(t, n, f) {
        let i = choose|i: int| 0 <= i < t.len() && (#[trigger] t[i]).name == n && t[i].file == f;
        assert(s[i].name == n && s[i].file == f);
    }
}

proof fn settled_agrees(k: Known)
    requires
        names_agree(k.names, k.symbols),
    ensures
        names_agree(settled(k).names, settled(k).symbols),
{
    let sorted = order::sorted_by(k.symbols, index::by_place());
    let s = settled(k).symbols;
    order::sorted_is_sorted(k.symbols, index::by_place());
    assert forall|n: Seq<char>, f: Seq<char>|
        #![trigger index::list_at(k.names, n).contains(f)]
        #![trigger defines(s, n, f)]
        index::list_at(k.names, n).contains(f) == defines(s, n, f) by {
        ends_define(sorted, k.lens, n, f);
        same_symbols_define(sorted, k.symbols, n, f);
        same_symbols_define(k.symbols, sorted, n, f);
        assert(index::list_at(k.names, n).contains(f) == defines(k.symbols, n, f));
    }
}

/// Where the names tell of the symbols, they still do once files have gone
/// and others have changed.
pub proof fn update_keeps_names_true(
    k: Known,
    gone: Seq<Seq<char>>,
    stale: Seq<Seq<char>>,
    contents: Map<Seq<char>, String>,
)
    requires
        names_agree(k.names, k.symbols),
    ensures
        names_agree(
            updated(k, gone, stale, contents).names,
            updated(k, gone, stale, contents).symbols,
        ),
{
    let r = removed_all(k, gone);
    removed_all_agrees(k, gone);
    if stale.len() > 0 {
        reread_all_agrees(r, held(stale, contents));
        settled_agrees(reread_all(r, held(stale, contents)));
    }
}

/// Whether no file stands in front of one that comes before it.
spec fn files_ascend(s: Seq<SymbolView>) -> bool {
    forall|i: int, j: int|
        0 <= i < j < s.len() ==> !order::before((#[trigger] s[j]).file, (#[trigger] s[i]).file)
}

spec fn ascends(list: Seq<Seq<char>>) -> bool {
    forall|i: int, j: int|
        0 <= i < j < list.len() ==> order::before(#[trigger] list[i], #[trigger] list[j])
}

proof fn ascending_is_single(list: Seq<Seq<char>>)
    requires
        ascends(list),
    ensures
        list.no_duplicates(),
{
    assert forall|i: int, j: int| 0 <= i < list.len() && 0 <= j < list.len() && i != j implies list[i]
        != list[j] by {
        order::before_irreflexive(list[i]);
        if i < j {
            assert(order::before(list[i], list[j]));
        } else {
            assert(order::before(list[j], list[i]));
        }
    }
}

proof fn ascending_push(list: Seq<Seq<char>>, f: Seq<char>)
    requires
        ascends(list),
        list.len() > 0 ==> order::before(list.last(), f),
    ensures
        ascends(list.push(f)),
{
    let r = list.push(f);
    assert forall|i: int, j: int| 0 <= i < j < r.len() implies order::before(
        #[trigger] r[i],
        #[trigger] r[j],
    ) by {
        if j < list.len() {
            assert(order::before(list[i], list[j]));
        } else if i < list.len() - 1 {
            assert(order::before(list[i], list[list.len() - 1]));
            order::before_transitive(list[i], list.last(), f);
        }
    }
}

proof fn names_of_ascending(s: Seq<SymbolView>)
    requires
        files_ascend(s),
    ensures
        names_agree(index::defined_in(s), s),
        forall|n: Seq<char>| ascends(#[trigger] index::list_at(index::defined_in(s), n)),
    decreases s.len(),
{
    let m2 = index::defined_in(s);
    if s.len() > 0 {
        let t = s.drop_last();
        let x = s.last();
        assert(files_ascend(t)) by {
            assert forall|i: int, j: int| 0 <= i < j < t.len() implies !order::before(
                (#[trigger] t[j]).file,
                (#[trigger] t[i]).file,
            ) by {
                assert(t[i] == s[i] && t[j] == s[j]);
            }
        }
        names_of_ascending(t);
        let m = index::defined_in(t);
        let files = index::list_at(m, x.name);
        assert(t.push(x) =~= s);
        assert forall|n: Seq<char>, f: Seq<char>|
            #![trigger index::list_at(m2, n).contains(f)]
            #![trigger defines(s, n, f)]
            index::list_at(m2, n).contains(f) == defines(s, n, f) by {
            defines_push(t, x, n, f);
            push_one(files, x.file);
            assert(index::list_at(m, n).contains(f) == defines(t, n, f));
            if files.len() > 0 && files.last() == x.file {
                assert(files[files.len() - 1] == x.file);
                assert(files.contains(x.file));
            }
        }
        if files.len() > 0 && files.last() != x.file {
            assert(files.contains(files.last()));
            assert(defines(t, x.name, files.last()));
            let i = choose|i: int|
                0 <= i < t.len() && (#[trigger] t[i]).name == x.name && t[i].file == files.last();
            assert(s[i] == t[i] && s[s.len() - 1] == x);
            order::before_total(x.file, files.last());
        }
        assert(ascends(files));
        if !(files.len() > 0 && files.last() == x.file) {
            ascending_push(files, x.file);
        }
        assert forall|n: Seq<char>| ascends(#[trigger] index::list_at(m2, n)) by {
            assert(ascends(index::list_at(m, n)));
        }
        assert forall|n: Seq<char>| #[trigger] m2.dom().contains(n) implies m2[n].len() > 0
            && m2[n].no_duplicates() by {
            assert(index::list_at(m2, n) == m2[n]);
            ascending_is_single(m2[n]);
            assert(n != x.name ==> m.dom().contains(n));
        }
    }
}

/// The names of an index tell of its symbols.
pub proof fn index_names_are_true(symbols: Seq<SymbolView>, lens: Map<Seq<char>, usize>)
    ensures
        ({
            let s = index::with_ends(order::sorted_by(symbols, index::by_place()), lens);
            names_agree(index::defined_in(s), s)
        }),
{
    let sorted = order::sorted_by(symbols, index::by_place());
    let s = index::with_ends(sorted, lens);
    index::by_place_sorts();
    order::sorted_is_sorted(symbols, index::by_place());
    assert forall|i: int, j: int| 0 <= i < j < s.len() implies !order::before(
        (#[trigger] s[j]).file,
        (#[trigger] s[i]).file,
    ) by {
        let le = index::by_place();
        assert(le(sorted[i], sorted[j]));
        if order::before(sorted[j].file, sorted[i].file) {
            order::before_asymmetric(sorted[j].file, sorted[i].file);
            order::before_irreflexive(sorted[i].file);
        }
    }
    names_of_ascending(s);
}

/// The strings of a map of strings.
pub open spec fn text_map(m: Map<Seq<char>, String>) -> Map<Seq<char>, Seq<char>> {
    Map::new(|k: Seq<char>| m.dom().contains(k), |k: Seq<char>| m[k]@)
}

/// The path and the hash of a line of `git ls-files -s`: the mode, the hash
/// and the stage, then a tab and the path.
pub open spec fn hash_line(line: Seq<char>) -> Option<(Seq<char>, Seq<char>)> {
    match pieces::split_once(line, "\t"@) {
        Some((head, path)) => if pieces::words(head).len() >= 2 {
            Some((path, pieces::words(head)[1]))
        } else {
            None
        },
        None => None,
    }
}

/// The hashes that lines of `git ls-files -s` give.
pub open spec fn hash_lines(ls: Seq<Seq<char>>) -> Map<Seq<char>, Seq<char>>
    decreases ls.len(),
{
    if ls.len() == 0 {
        Map::empty()
    } else {
        match hash_line(ls.last()) {
            Some((path, hash)) => hash_lines(ls.drop_last()).insert(path, hash),
            None => hash_lines(ls.drop_last()),
        }
    }
}

/// Reads the output of `git ls-files -s`.
pub fn parse_ls_files(output: &str) -> (r: NameMap<String>)
    ensures
        text_map(r@) == hash_lines(pieces::lines(output@)),
{
    let ls = lines_of(output);
    let ghost all = text::views(ls@);
    let mut out: NameMap<String> = NameMap::new();
    let mut i: usize = 0;
    assert(all.take(0) =~= Seq::<Seq<char>>::empty());
    assert(text_map(out@) =~= Map::<Seq<char>, Seq<char>>::empty());
    while i < ls.len()
        invariant
            i <= ls.len(),
            all == text::views(ls@),
            text_map(out@) == hash_lines(all.take(i as int)),
        decreases ls.len() - i,
    {
        proof {
            assert(all.take(i + 1).drop_last() =~= all.take(i as int));
            assert(all.take(i + 1).last() == ls@[i as int]@);
        }
        match split_first(ls[i].as_str(), "\t") {
            Some((head, path)) => {
                let ws = words_of(head.as_str());
                assert(text::views(ws@).len() == ws@.len());
                if ws.len() >= 2 {
                    assert(text::views(ws@)[1] == ws@[1]@);
                    let ghost before = out@;
                    let hash = ws[1].clone();
                    out.insert(path, hash);
                    assert(text_map(out@) =~= text_map(before).insert(path@, hash@));
                }
            },
            None => {},
        }
        i += 1;
    }
    assert(all.take(i as int) =~= all);
    out
}

/// The mark of a file whose last change is all that is known.
pub fn mtime_hash(secs: u64) -> (r: String)
    ensures
        r@ == "mtime:"@ + number::decimal(secs as nat),
{
    let mut s = "mtime:".to_owned();
    s.append(decimal_of(secs).as_str());
    s
}

/// A `.gitignore` that names the entry: `None` where it does already.
pub open spec fn ignoring(content: Seq<char>, entry: Seq<char>) -> Option<Seq<char>> {
    if exists|i: int|
        0 <= i < pieces::lines(content).len() && text::trim(#[trigger] pieces::lines(content)[i])
            == entry {
        None
    } else {
        Some(content + (if text::ends(content, "\n"@) {
            Seq::empty()
        } else {
            "\n"@
        }) + entry + "\n"@)
    }
}

/// The `.gitignore` to write so that the graph is ignored, or `None` where
/// it is already.
pub fn gitignore_with(content: &str, entry: &str) -> (r: Option<String>)
    ensures
        text::opt_text(r) == ignoring(content@, entry@),
{
    let ls = lines_of(content);
    let ghost all = text::views(ls@);
    let mut i: usize = 0;
    while i < ls.len()
        invariant
            i <= ls.len(),
            all == text::views(ls@),
            all == pieces::lines(content@),
            forall|k: int| 0 <= k < i ==> text::trim(#[trigger] all[k]) != entry@,
        decreases ls.len() - i,
    {
        let t = trimmed(ls[i].as_str());
        assert(all[i as int] == ls@[i as int]@);
        if same(t.as_str(), entry) {
            return None;
        }
        i += 1;
    }
    let mut out = content.to_owned();
    if !finishes_with(content, "\n") {
        out.append("\n");
    } else {
        assert(content@ =~= content@ + Seq::<char>::empty());
    }
    out.append(entry);
    out.append("\n");
    Some(out)
}

// ── Files a task speaks of ───────────────────────────────────────────────────

/// The words of four characters and more, in lower case.
pub open spec fn long_words(ws: Seq<Seq<char>>) -> Seq<Seq<char>>
    decreases ws.len(),
{
    if ws.len() == 0 {
        Seq::empty()
    } else if ws.last().len() >= 4 {
        long_words(ws.drop_last()).push(text::lowercase(ws.last()))
    } else {
        long_words(ws.drop_last())
    }
}

/// The words of a task to look for.
pub open spec fn task_words(task: Seq<char>) -> Seq<Seq<char>> {
    long_words(pieces::split_set(task, CharSet::NotWord))
}

fn words_of_task(task: &str) -> (r: Vec<String>)
    ensures
        text::views(r@) == task_words(task@),
{
    let parts = split_by(task, CharSet::NotWord);
    let ghost all = text::views(parts@);
    let mut out: Vec<String> = Vec::new();
    let mut i: usize = 0;
    proof {
        text::views_empty();
        assert(all.take(0) =~= Seq::<Seq<char>>::empty());
    }
    while i < parts.len()
        invariant
            i <= parts.len(),
            all == text::views(parts@),
            text::views(out@) == long_words(all.take(i as int)),
        decreases parts.len() - i,
    {
        assert(all.take(i + 1).drop_last() =~= all.take(i as int));
        assert(all.take(i + 1).last() == parts@[i as int]@);
        if count(parts[i].as_str()) >= 4 {
            out.push(parts[i].as_str().to_lowercase());
        }
        i += 1;
    }
    assert(all.take(i as int) =~= all);
    out
}

/// How many of the words a file's stem shares: one holds the other.
pub open spec fn stem_hits(stem: Seq<char>, ws: Seq<Seq<char>>) -> nat
    decreases ws.len(),
{
    if ws.len() == 0 {
        0
    } else {
        stem_hits(stem, ws.drop_last()) + if text::contains(stem, ws.last()) || text::contains(
            ws.last(),
            stem,
        ) {
            1nat
        } else {
            0nat
        }
    }
}

/// How many of the words a symbol's name holds.
pub open spec fn name_hits(name: Seq<char>, ws: Seq<Seq<char>>) -> nat
    decreases ws.len(),
{
    if ws.len() == 0 {
        0
    } else {
        name_hits(name, ws.drop_last()) + if text::contains(name, ws.last()) {
            1nat
        } else {
            0nat
        }
    }
}

/// What a file's symbols score: two for each word that a name holds.
pub open spec fn symbol_score(symbols: Seq<Symbol>, file: Seq<char>, ws: Seq<Seq<char>>) -> nat
    decreases symbols.len(),
{
    if symbols.len() == 0 {
        0
    } else {
        symbol_score(symbols.drop_last(), file, ws) + if symbols.last().file@ == file {
            2 * name_hits(text::lowercase(symbols.last().name@), ws)
        } else {
            0nat
        }
    }
}

pub open spec fn stem_score(keys: Seq<Seq<char>>, file: Seq<char>, ws: Seq<Seq<char>>) -> nat {
    if keys.contains(file) {
        stem_hits(text::lowercase(paths::stem(file)), ws)
    } else {
        0
    }
}

/// What a file scores for a task.
pub open spec fn score(g: ProjectGraph, file: Seq<char>, ws: Seq<Seq<char>>) -> nat {
    (if g.file_lines@.dom().contains(file) {
        stem_hits(text::lowercase(paths::stem(file)), ws)
    } else {
        0
    }) + symbol_score(g.symbols@, file, ws)
}

/// A score as it is compared: large ones are all alike.
pub open spec fn capped(n: nat) -> nat {
    if n > u64::MAX {
        u64::MAX as nat
    } else {
        n
    }
}

/// Whether `r` are the files that the task speaks of: the five that score
/// most, the best first, none of them named already. Files of one score may
/// come in any order.
pub open spec fn anchors(
    r: Seq<Seq<char>>,
    g: ProjectGraph,
    ws: Seq<Seq<char>>,
    given: Seq<Seq<char>>,
) -> bool {
    &&& r.no_duplicates()
    &&& r.len() <= 5
    &&& forall|i: int| 0 <= i < r.len() ==> score(g, #[trigger] r[i], ws) > 0 && !given.contains(r[i])
    &&& forall|i: int, j: int|
        0 <= i < j < r.len() ==> capped(score(g, #[trigger] r[i], ws)) >= capped(
            score(g, #[trigger] r[j], ws),
        )
    &&& forall|f: Seq<char>|
        score(g, f, ws) > 0 && !given.contains(f) && !(#[trigger] r.contains(f)) ==> r.len() == 5
            && capped(score(g, f, ws)) <= capped(score(g, r[4], ws))
}

fn count_stem_hits(stem: &str, ws: &Vec<String>) -> (n: usize)
    ensures
        n == stem_hits(stem@, text::views(ws@)),
{
    let ghost all = text::views(ws@);
    let mut n: usize = 0;
    let mut i: usize = 0;
    assert(all.take(0) =~= Seq::<Seq<char>>::empty());
    while i < ws.len()
        invariant
            i <= ws.len(),
            n <= i,
            all == text::views(ws@),
            n == stem_hits(stem@, all.take(i as int)),
        decreases ws.len() - i,
    {
        assert(all.take(i + 1).drop_last() =~= all.take(i as int));
        assert(all.take(i + 1).last() == ws@[i as int]@);
        if holds(stem, ws[i].as_str()) || holds(ws[i].as_str(), stem) {
            n += 1;
        }
        i += 1;
    }
    assert(all.take(i as int) =~= all);
    n
}

fn count_name_hits(name: &str, ws: &Vec<String>) -> (n: usize)
    ensures
        n == name_hits(name@, text::views(ws@)),
{
    let ghost all = text::views(ws@);
    let mut n: usize = 0;
    let mut i: usize = 0;
    assert(all.take(0) =~= Seq::<Seq<char>>::empty());
    while i < ws.len()
        invariant
            i <= ws.len(),
            n <= i,
            all == text::views(ws@),
            n == name_hits(name@, all.take(i as int)),
        decreases ws.len() - i,
    {
        assert(all.take(i + 1).drop_last() =~= all.take(i as int));
        assert(all.take(i + 1).last() == ws@[i as int]@);
        if holds(name, ws[i].as_str()) {
            n += 1;
        }
        i += 1;
    }
    assert(all.take(i as int) =~= all);
    n
}

/// Whether the list holds each file that scores, with its score.
pub open spec fn scored(
    v: Seq<(String, u64)>,
    of: spec_fn(Seq<char>) -> nat,
) -> bool {
    &&& forall|i: int, j: int|
        0 <= i < j < v.len() ==> (#[trigger] v[i]).0@ != (#[trigger] v[j]).0@
    &&& forall|i: int|
        0 <= i < v.len() ==> of((#[trigger] v[i]).0@) > 0 && v[i].1 == capped(of(v[i].0@))
    &&& forall|f: Seq<char>|
        #[trigger] of(f) > 0 ==> exists|i: int| 0 <= i < v.len() && (#[trigger] v[i]).0@ == f
}

/// Adds `hits` to the score of a file.
fn add_score(
    v: &mut Vec<(String, u64)>,
    file: &str,
    hits: u64,
    Ghost(of): Ghost<spec_fn(Seq<char>) -> nat>,
    Ghost(now): Ghost<spec_fn(Seq<char>) -> nat>,
    Ghost(exact): Ghost<nat>,
)
    requires
        scored(old(v)@, of),
        hits > 0,
        hits == capped(exact),
        forall|f: Seq<char>| #[trigger]
            now(f) == of(f) + if f == file@ {
                exact
            } else {
                0
            },
    ensures
        scored(final(v)@, now),
{
    let ghost before = v@;
    let mut i: usize = 0;
    while i < v.len() && !same(v[i].0.as_str(), file)
        invariant
            i <= v.len(),
            v@ == before,
            forall|k: int| 0 <= k < i ==> (#[trigger] before[k]).0@ != file@,
        decreases v.len() - i,
    {
        i += 1;
    }
    if i < v.len() {
        let n: u64 = v[i].1.saturating_add(hits);
        let name = v[i].0.clone();
        v.set(i, (name, n));
        proof {
            assert forall|f: Seq<char>| #[trigger] now(f) > 0 implies exists|k: int|
                0 <= k < v@.len() && (#[trigger] v@[k]).0@ == f by {
                if f == file@ {
                    assert(v@[i as int].0@ == f);
                } else {
                    assert(of(f) > 0);
                    let k = choose|k: int| 0 <= k < before.len() && (#[trigger] before[k]).0@ == f;
                    assert(v@[k].0@ == f);
                }
            }
            assert forall|a: int, b: int| 0 <= a < b < v@.len() implies (#[trigger] v@[a]).0@ != (
            #[trigger] v@[b]).0@ by {
                assert(before[a].0@ != before[b].0@);
            }
            assert forall|k: int| 0 <= k < v@.len() implies now((#[trigger] v@[k]).0@) > 0 && v@[k].1
                == capped(now(v@[k].0@)) by {
                assert(of(before[k].0@) > 0);
                if k != i {
                    if k < i {
                        assert(before[k].0@ != before[i as int].0@);
                    } else {
                        assert(before[i as int].0@ != before[k].0@);
                    }
                }
            }
        }
    } else {
        v.push((file.to_owned(), hits));
        proof {
            assert(of(file@) == 0) by {
                if of(file@) > 0 {
                    let k = choose|k: int|
                        0 <= k < before.len() && (#[trigger] before[k]).0@ == file@;
                }
            }
            assert forall|f: Seq<char>| #[trigger] now(f) > 0 implies exists|k: int|
                0 <= k < v@.len() && (#[trigger] v@[k]).0@ == f by {
                if f == file@ {
                    assert(v@[i as int].0@ == f);
                } else {
                    assert(of(f) > 0);
                    let k = choose|k: int| 0 <= k < before.len() && (#[trigger] before[k]).0@ == f;
                    assert(v@[k].0@ == f);
                }
            }
            assert forall|k: int| 0 <= k < v@.len() implies now((#[trigger] v@[k]).0@) > 0 && v@[k].1
                == capped(now(v@[k].0@)) by {
                if k < before.len() {
                    assert(of(before[k].0@) > 0);
                }
            }
        }
    }
}

pub open spec fn better(a: (String, u64), b: (String, u64)) -> bool {
    a.1 >= b.1
}

pub open spec fn by_score() -> spec_fn((String, u64), (String, u64)) -> bool {
    |a: (String, u64), b: (String, u64)| better(a, b)
}

fn score_files(g: &ProjectGraph, ws: &Vec<String>) -> (v: Vec<(String, u64)>)
    ensures
        scored(v@, |f: Seq<char>| score(*g, f, text::views(ws@))),
{
    let ghost words = text::views(ws@);
    let mut v: Vec<(String, u64)> = Vec::new();
    let n: usize = g.file_lines.len();
    let ghost keys = g.file_lines.names();
    let mut i: usize = 0;
    assert(keys.take(0) =~= Seq::<Seq<char>>::empty());
    while i < n
        invariant
            i <= n,
            n == keys.len(),
            keys == g.file_lines.names(),
            g.file_lines.keyed(),
            words == text::views(ws@),
            scored(v@, |f: Seq<char>| stem_score(keys.take(i as int), f, words)),
        decreases n - i,
    {
        let key = g.file_lines.key_at(i);
        let stem = stem_of(key.as_str());
        let low = stem.as_str().to_lowercase();
        let hits: usize = count_stem_hits(low.as_str(), ws);
        let ghost of = |f: Seq<char>| stem_score(keys.take(i as int), f, words);
        let ghost now = |f: Seq<char>| stem_score(keys.take(i + 1), f, words);
        proof {
            take_one_more(keys, i as int);
            assert forall|f: Seq<char>| #[trigger]
                now(f) == of(f) + if f == key@ {
                    hits as nat
                } else {
                    0
                } by {
                assert(keys.take(i + 1).contains(f) == (keys.take(i as int).contains(f) || f == key@));
            }
        }
        if hits > 0 {
            add_score(&mut v, key.as_str(), hits as u64, Ghost(of), Ghost(now), Ghost(hits as nat));
        } else {
            assert(scored(v@, now)) by {
                assert forall|f: Seq<char>| #[trigger] now(f) > 0 implies exists|k: int|
                    0 <= k < v@.len() && (#[trigger] v@[k]).0@ == f by {
                    assert(of(f) > 0);
                }
                assert forall|k: int| 0 <= k < v@.len() implies now((#[trigger] v@[k]).0@) > 0
                    && v@[k].1 == capped(now(v@[k].0@)) by {
                    assert(of(v@[k].0@) > 0);
                }
            }
        }
        i += 1;
    }
    assert(keys.take(i as int) =~= keys);
    let ghost base = |f: Seq<char>| stem_score(keys, f, words);
    let mut j: usize = 0;
    proof {
        let start = |f: Seq<char>| stem_score(keys, f, words) + symbol_score(
            g.symbols@.take(0),
            f,
            words,
        );
        assert(start =~= base);
    }
    while j < g.symbols.len()
        invariant
            j <= g.symbols.len(),
            words == text::views(ws@),
            scored(
                v@,
                |f: Seq<char>|
                    stem_score(keys, f, words) + symbol_score(g.symbols@.take(j as int), f, words),
            ),
        decreases g.symbols.len() - j,
    {
        let s = &g.symbols[j];
        let low = s.name.as_str().to_lowercase();
        let hits: usize = count_name_hits(low.as_str(), ws);
        let ghost exact = 2 * (hits as nat);
        let ghost of = |f: Seq<char>|
            stem_score(keys, f, words) + symbol_score(g.symbols@.take(j as int), f, words);
        let ghost now = |f: Seq<char>|
            stem_score(keys, f, words) + symbol_score(g.symbols@.take(j + 1), f, words);
        proof {
            assert(g.symbols@.take(j + 1).drop_last() =~= g.symbols@.take(j as int));
            assert(g.symbols@.take(j + 1).last() == *s);
            assert forall|f: Seq<char>| #[trigger]
                now(f) == of(f) + if f == s.file@ {
                    exact
                } else {
                    0
                } by {}
        }
        if hits > 0 {
            let h: u64 = (hits as u64).saturating_add(hits as u64);
            add_score(&mut v, s.file.as_str(), h, Ghost(of), Ghost(now), Ghost(exact));
        } else {
            assert(scored(v@, now)) by {
                assert forall|f: Seq<char>| #[trigger] now(f) > 0 implies exists|k: int|
                    0 <= k < v@.len() && (#[trigger] v@[k]).0@ == f by {
                    assert(of(f) > 0);
                }
                assert forall|k: int| 0 <= k < v@.len() implies now((#[trigger] v@[k]).0@) > 0
                    && v@[k].1 == capped(now(v@[k].0@)) by {
                    assert(of(v@[k].0@) > 0);
                }
            }
        }
        j += 1;
    }
    proof {
        assert(g.symbols@.take(j as int) =~= g.symbols@);
        let got = |f: Seq<char>|
            stem_score(keys, f, words) + symbol_score(g.symbols@.take(j as int), f, words);
        let goal = |f: Seq<char>| score(*g, f, words);
        assert forall|f: Seq<char>| #[trigger] got(f) == goal(f) by {
            assert(g.file_lines@.dom().contains(f) == keys.contains(f));
        }
        assert(got =~= goal);
    }
    v
}

/// The files that a task speaks of, beyond those named.
pub fn anchor_files_from_task(task: &str, context_files: &Vec<String>, graph: &ProjectGraph) -> (r: Vec<
    String,
>)
    ensures
        anchors(text::views(r@), *graph, task_words(task@), text::views(context_files@)),
{
    let ws = words_of_task(task);
    let ghost words = task_words(task@);
    let ghost given = text::views(context_files@);
    let ghost of = |f: Seq<char>| score(*graph, f, words);
    let mut ranked = score_files(graph, &ws);
    let ghost raw = ranked@;
    let le = |a: &(String, u64), b: &(String, u64)| -> (r: bool)
        ensures r == better(*a, *b)
    {
        a.1 >= b.1
    };
    sort_by(&mut ranked, le, Ghost(by_score()));
    let ghost all = ranked@;
    proof {
        order::sorted_is_sorted(raw, by_score());
        order::sorted_same_items(raw, by_score());
        assert(order::sorts(by_score())) by {
            let t = by_score();
            assert(forall|a: (String, u64), b: (String, u64)| #[trigger] t(a, b) || t(b, a));
            assert(forall|a: (String, u64), b: (String, u64), c: (String, u64)| #[trigger]
                t(a, b) && #[trigger] t(b, c) ==> t(a, c));
        }
        assert(raw.no_duplicates());
        assert forall|a: int| 0 <= a < all.len() implies of((#[trigger] all[a]).0@) > 0 && all[a].1
            == capped(of(all[a].0@)) by {
            assert(all.contains(all[a]));
            assert(raw.contains(all[a]));
        }
        assert forall|a: int, b: int| 0 <= a < b < all.len() implies (#[trigger] all[a]).0@ != (
        #[trigger] all[b]).0@ by {
            assert(all.contains(all[a]) && all.contains(all[b]));
            assert(raw.contains(all[a]) && raw.contains(all[b]));
            let x = choose|x: int| 0 <= x < raw.len() && raw[x] == all[a];
            let y = choose|y: int| 0 <= y < raw.len() && raw[y] == all[b];
            assert(all[a] != all[b]);
            if x < y {
                assert(raw[x].0@ != raw[y].0@);
            } else {
                assert(raw[y].0@ != raw[x].0@);
            }
        }
        assert forall|f: Seq<char>| #[trigger] of(f) > 0 implies exists|a: int|
            0 <= a < all.len() && (#[trigger] all[a]).0@ == f by {
            let x = choose|x: int| 0 <= x < raw.len() && (#[trigger] raw[x]).0@ == f;
            assert(raw.contains(raw[x]));
            assert(all.contains(raw[x]));
            let a = choose|a: int| 0 <= a < all.len() && all[a] == raw[x];
            assert(all[a].0@ == f);
        }
    }
    let mut out: Vec<String> = Vec::new();
    let mut i: usize = 0;
    while i < ranked.len() && out.len() < 5
        invariant
            i <= ranked.len(),
            ranked@ == all,
            out.len() <= 5,
            given == text::views(context_files@),
            order::in_order(all, by_score()),
            forall|a: int|
                0 <= a < all.len() ==> of((#[trigger] all[a]).0@) > 0 && all[a].1 == capped(
                    of(all[a].0@),
                ),
            forall|a: int, b: int|
                0 <= a < b < all.len() ==> (#[trigger] all[a]).0@ != (#[trigger] all[b]).0@,
            forall|k: int|
                0 <= k < out.len() ==> exists|a: int|
                    0 <= a < i && (#[trigger] all[a]).0@ == (#[trigger] out@[k])@,
            forall|k: int| 0 <= k < out.len() ==> !given.contains((#[trigger] out@[k])@),
            forall|k: int, l: int|
                0 <= k < l < out.len() ==> (#[trigger] out@[k])@ != (#[trigger] out@[l])@ && capped(
                    of(out@[k]@),
                ) >= capped(of(out@[l]@)),
            forall|a: int|
                0 <= a < i && !given.contains((#[trigger] all[a]).0@) ==> text::views(out@).contains(
                    all[a].0@,
                ),
        decreases ranked.len() - i,
    {
        let f = ranked[i].0.as_str();
        let ghost before = out@;
        if !listed(f, context_files) {
            out.push(ranked[i].0.clone());
            proof {
                push_one(text::views(before), f@);
                assert forall|k: int| 0 <= k < before.len() implies (#[trigger] out@[k])@ != f@
                    && capped(of(out@[k]@)) >= capped(of(f@)) by {
                    let a = choose|a: int| 0 <= a < i && (#[trigger] all[a]).0@ == before[k]@;
                    let t = by_score();
                    assert(t(all[a], all[i as int]));
                }
                assert forall|k: int| 0 <= k < out@.len() implies exists|a: int|
                    0 <= a < i + 1 && (#[trigger] all[a]).0@ == (#[trigger] out@[k])@ by {
                    if k < before.len() {
                        let a = choose|a: int| 0 <= a < i && (#[trigger] all[a]).0@ == before[k]@;
                        assert(all[a].0@ == out@[k]@);
                    } else {
                        assert(all[i as int].0@ == out@[k]@);
                    }
                }
            }
        } else {
            assert forall|k: int| 0 <= k < out@.len() implies exists|a: int|
                0 <= a < i + 1 && (#[trigger] all[a]).0@ == (#[trigger] out@[k])@ by {
                let a = choose|a: int| 0 <= a < i && (#[trigger] all[a]).0@ == before[k]@;
                assert(all[a].0@ == out@[k]@);
            }
        }
        i += 1;
    }
    proof {
        let r = text::views(out@);
        assert forall|k: int| 0 <= k < r.len() implies score(*graph, #[trigger] r[k], words) > 0
            && !given.contains(r[k]) by {
            assert(r[k] == out@[k]@);
            let a = choose|a: int| 0 <= a < i && (#[trigger] all[a]).0@ == out@[k]@;
            assert(of(all[a].0@) > 0);
        }
        assert forall|f: Seq<char>|
            score(*graph, f, words) > 0 && !given.contains(f) && !(#[trigger] r.contains(f)) implies r.len()
            == 5 && capped(score(*graph, f, words)) <= capped(score(*graph, r[4], words)) by {
            assert(of(f) > 0);
            let a = choose|a: int| 0 <= a < all.len() && (#[trigger] all[a]).0@ == f;
            assert(a >= i);
            let b = choose|b: int| 0 <= b < i && (#[trigger] all[b]).0@ == out@[4]@;
            let t = by_score();
            assert(t(all[b], all[a]));
        }
        assert forall|k: int, l: int| 0 <= k < l < r.len() implies capped(
            score(*graph, #[trigger] r[k], words),
        ) >= capped(score(*graph, #[trigger] r[l], words)) by {
            assert(r[k] == out@[k]@ && r[l] == out@[l]@);
            assert(capped(of(out@[k]@)) >= capped(of(out@[l]@)));
        }
        assert forall|k: int, l: int| 0 <= k < r.len() && 0 <= l < r.len() && k != l implies r[k]
            != r[l] by {
            if k < l {
                assert(out@[k]@ != out@[l]@);
            } else {
                assert(out@[l]@ != out@[k]@);
            }
        }
    }
    out
}

/// The files to put forward: those given, then those the task speaks of.
pub fn focus_files(task: &str, attached: &Vec<String>, graph: &ProjectGraph) -> (r: Vec<String>)
    ensures
        text::views(r@).len() >= attached@.len(),
        text::views(r@).take(attached@.len() as int) == text::views(attached@),
        anchors(
            text::views(r@).skip(attached@.len() as int),
            *graph,
            task_words(task@),
            text::views(attached@),
        ),
{
    let mut out = first_strings(attached, attached.len());
    let mut more = anchor_files_from_task(task, attached, graph);
    let ghost a = text::views(attached@);
    let ghost m = text::views(more@);
    assert(text::views(out@) == a);
    assert(text::views(out@).len() == out@.len());
    out.append(&mut more);
    assert(text::views(out@).take(attached@.len() as int) =~= a);
    assert(text::views(out@).skip(attached@.len() as int) =~= m);
    out
}

/// The call that stands for the summary of a project.
pub open spec fn summary_messages(summary: Seq<char>) -> Seq<client::MessageView> {
    seq![
        client::MessageView {
            role: "assistant"@,
            content: client::ContentView::Text(Seq::empty()),
            tool_calls: seq![
                client::ToolCallView {
                    id: "pie_ctx_0"@,
                    name: "find_symbol"@,
                    arguments: "{\"name\":\"__summary__\"}"@,
                },
            ],
        },
        client::MessageView {
            role: "user"@,
            content: client::ContentView::Parts(
                seq![client::PartView::ToolResult("pie_ctx_0"@, summary)],
            ),
            tool_calls: Seq::empty(),
        },
    ]
}

fn told_by_tool(summary: String) -> (r: Vec<Message>)
    ensures
        client::message_views(r@) == summary_messages(summary@),
{
    let mut calls: Vec<ToolCall> = Vec::new();
    calls.push(
        ToolCall {
            id: "pie_ctx_0".to_owned(),
            name: "find_symbol".to_owned(),
            arguments: "{\"name\":\"__summary__\"}".to_owned(),
        },
    );
    let call = Message {
        role: "assistant".to_owned(),
        content: MessageContent::Text(String::new()),
        tool_calls: calls,
    };
    let mut parts: Vec<ContentPart> = Vec::new();
    parts.push(
        ContentPart::ToolResult { tool_use_id: "pie_ctx_0".to_owned(), content: summary },
    );
    let result = Message {
        role: "user".to_owned(),
        content: MessageContent::Parts(parts),
        tool_calls: Vec::new(),
    };
    let mut out: Vec<Message> = Vec::new();
    out.push(call);
    out.push(result);
    proof {
        let goal = summary_messages(summary@);
        assert(client::call_views(call.tool_calls@) =~= goal[0].tool_calls);
        assert(client::part_views(parts@) =~= seq![client::PartView::ToolResult("pie_ctx_0"@, summary@)]);
        assert(client::call_views(result.tool_calls@) =~= Seq::<client::ToolCallView>::empty());
        assert(call@ == goal[0]);
        assert(result@ == goal[1]);
        assert(client::message_views(out@) =~= goal);
    }
    out
}

/// Two messages that put a summary of the project before the task, as a
/// tool that has run: the call and its result. Where there is no summary,
/// there are no messages.
pub fn pie_injection_messages(summary: Option<String>) -> (r: Vec<Message>)
    ensures
        client::message_views(r@) == (match summary {
            Some(s) => summary_messages(s@),
            None => Seq::<client::MessageView>::empty(),
        }),
{
    match summary {
        Some(s) => told_by_tool(s),
        None => {
            let none: Vec<Message> = Vec::new();
            assert(client::message_views(none@) =~= Seq::<client::MessageView>::empty());
            none
        },
    }
}

// ── What the parts of the map say ────────────────────────────────────────────

proof fn split_at_slash(a: Seq<char>, rest: Seq<char>)
    requires
        !a.contains('/'),
    ensures
        pieces::split_set(a, CharSet::OneOf("/")) == seq![a],
        pieces::split_set(a + "/"@ + rest, CharSet::OneOf("/")) == seq![a] + pieces::split_set(
            rest,
            CharSet::OneOf("/"),
        ),
{
    reveal_strlit("/");
    let cs = CharSet::OneOf("/");
    let t = "/"@;
    assert(t[0] == '/');
    assert(t.contains('/'));
    text::lead_bound(a, cs, false);
    let m = text::lead(a, cs, false) as int;
    if m < a.len() {
        assert(t.contains(a[m]));
        assert(a[m] == '/');
    }
    let s = a + t + rest;
    text::lead_bound(s, cs, false);
    let n = text::lead(s, cs, false) as int;
    if n < a.len() {
        assert(t.contains(s[n]));
        assert(a[n] == '/');
    } else if n > a.len() {
        assert(s[a.len() as int] == '/');
    }
    assert(s.take(n) =~= a);
    assert(s.skip(n + 1) =~= rest);
}

/// A file belongs to the directory that it stands in below `src`, else to the
/// first directory of its path, and at the root to none.
pub proof fn files_go_by_directory(dir: Seq<char>, file: Seq<char>, rest: Seq<char>)
    requires
        !dir.contains('/'),
        !file.contains('/'),
    ensures
        cluster_name("src/"@ + dir + "/"@ + rest) == dir,
        cluster_name("src/"@ + file) == "src"@,
        dir != "src"@ ==> cluster_name(dir + "/"@ + rest) == dir,
        cluster_name(file) == "root"@,
{
    reveal_strlit("src/");
    reveal_strlit("src");
    reveal_strlit("/");
    let cs = CharSet::OneOf("/");
    let inner = dir + "/"@ + rest;
    assert("src/"@ + dir + "/"@ + rest =~= "src"@ + "/"@ + inner);
    assert("src/"@ + file =~= "src"@ + "/"@ + file);
    split_at_slash("src"@, inner);
    split_at_slash("src"@, file);
    split_at_slash(dir, rest);
    split_at_slash(file, rest);
    pieces::set_parts_pieces(rest, cs);
    let a = pieces::split_set("src"@ + "/"@ + inner, cs);
    assert(a[1] == pieces::split_set(inner, cs)[0]);
    let b = pieces::split_set(dir + "/"@ + rest, cs);
    assert(b[0] == dir);
}

/// How many of the symbols name a file as theirs.
pub open spec fn symbols_naming(symbols: Seq<Symbol>, file: Seq<char>) -> nat {
    symbols.filter(|s: Symbol| s.file@ == file).len()
}

/// A file weighs as many symbols as name it.
pub proof fn symbols_are_counted(symbols: Seq<Symbol>, file: Seq<char>)
    ensures
        count_in(symbols, file) == symbols_naming(symbols, file),
    decreases symbols.len(),
{
    reveal(Seq::filter);
    if symbols.len() > 0 {
        symbols_are_counted(symbols.drop_last(), file);
    }
}

proof fn all_are_in(out: Seq<Seq<char>>, fs: Seq<Seq<char>>, f: Seq<char>)
    ensures
        with_all(out, fs).contains(f) <==> out.contains(f) || fs.contains(f),
    decreases fs.len(),
{
    if fs.len() > 0 {
        let t = fs.drop_last();
        all_are_in(out, t, f);
        let w = with_all(out, t);
        let x = fs.last();
        let r = with_all(out, fs);
        assert(fs[fs.len() - 1] == x);
        if t.contains(f) {
            let i = t.index_of(f);
            assert(fs[i] == f);
        }
        if fs.contains(f) && f != x {
            let i = fs.index_of(f);
            assert(t[i] == f);
        }
        if !w.contains(x) {
            assert(r == w.push(x));
            assert(r[w.len() as int] == x);
            if w.contains(f) {
                let i = w.index_of(f);
                assert(r[i] == f);
            }
            if r.contains(f) && f != x {
                let i = r.index_of(f);
                assert(w[i] == f);
            }
        }
    }
}

/// The files that are meant are those in which a known name is defined, and
/// every other entry as it stands; each stands once.
pub proof fn names_mean_their_files(
    entries: Seq<Seq<char>>,
    by_name: Map<Seq<char>, Seq<Seq<char>>>,
    f: Seq<char>,
)
    ensures
        resolved(entries, by_name).contains(f) <==> exists|i: int|
            0 <= i < entries.len() && (if by_name.dom().contains(#[trigger] entries[i])
                && !entries[i].contains('/') && !entries[i].contains('.') {
                by_name[entries[i]].contains(f)
            } else {
                entries[i] == f
            }),
    decreases entries.len(),
{
    reveal_strlit("/");
    reveal_strlit(".");
    if entries.len() > 0 {
        let t = entries.drop_last();
        let e = entries.last();
        let n = entries.len() - 1;
        names_mean_their_files(t, by_name, f);
        all_are_in(resolved(t, by_name), meaning(e, by_name), f);
        holds_sign(e, "/"@);
        holds_sign(e, "."@);
        assert("/"@[0] == '/' && "."@[0] == '.');
        let means = |x: Seq<char>|
            if by_name.dom().contains(x) && !x.contains('/') && !x.contains('.') {
                by_name[x].contains(f)
            } else {
                x == f
            };
        let m = meaning(e, by_name);
        if !(by_name.dom().contains(e) && !e.contains('/') && !e.contains('.')) {
            assert(m == seq![e]);
            assert(m[0] == e);
        }
        assert(m.contains(f) == means(e));
        assert(entries[n] == e);
        if resolved(t, by_name).contains(f) {
            let i = choose|i: int|
                0 <= i < t.len() && (if by_name.dom().contains(#[trigger] t[i]) && !t[i].contains('/')
                    && !t[i].contains('.') {
                    by_name[t[i]].contains(f)
                } else {
                    t[i] == f
                });
            assert(entries[i] == t[i]);
        }
        if exists|i: int| 0 <= i < entries.len() && means(#[trigger] entries[i]) {
            let i = choose|i: int| 0 <= i < entries.len() && means(#[trigger] entries[i]);
            if i < n {
                assert(t[i] == entries[i]);
            }
        }
    }
}

proof fn holds_sign(s: Seq<char>, p: Seq<char>)
    requires
        p.len() == 1,
    ensures
        text::contains(s, p) == s.contains(p[0]),
{
    if text::contains(s, p) {
        let i = choose|i: int| text::occurs_at(s, p, i);
        assert(s.subrange(i, i + 1)[0] == s[i]);
    }
    if s.contains(p[0]) {
        let i = s.index_of(p[0]);
        assert(s.subrange(i, i + 1) =~= p);
        assert(text::occurs_at(s, p, i));
    }
}

/// What is left of a list when a path goes, what is left of the symbols, and
/// what a file's symbols are.
pub proof fn paths_are_told_apart(list: Seq<Seq<char>>, s: Seq<SymbolView>, p: Seq<char>)
    ensures
        without(list, p) == list.filter(|x: Seq<char>| x != p),
        kept_symbols(s, p) == s.filter(|x: SymbolView| x.file != p),
        symbols_of(s, p) == s.filter(|x: SymbolView| x.file == p),
    decreases list.len() + s.len(),
{
    reveal(Seq::filter);
    if list.len() > 0 {
        paths_are_told_apart(list.drop_last(), s, p);
    } else if s.len() > 0 {
        paths_are_told_apart(list, s.drop_last(), p);
    }
}

/// A file has changed where its hash is new or another; one has vanished where
/// it is no longer there.
pub proof fn changes_go_by_hash(
    keys: Seq<Seq<char>>,
    current: Map<Seq<char>, String>,
    had: Map<Seq<char>, String>,
)
    ensures
        changed(keys, current, had) == keys.filter(
            |k: Seq<char>| !had.dom().contains(k) || had[k]@ != current[k]@,
        ),
        vanished(keys, current) == keys.filter(|k: Seq<char>| !current.dom().contains(k)),
    decreases keys.len(),
{
    reveal(Seq::filter);
    if keys.len() > 0 {
        changes_go_by_hash(keys.drop_last(), current, had);
    }
}

/// A line of the list of hashes gives a path its hash: the second word in
/// front of the tab.
pub proof fn hashes_are_read(
    mode: Seq<char>,
    hash: Seq<char>,
    tail: Seq<char>,
    path: Seq<char>,
    before: Seq<Seq<char>>,
)
    requires
        mode.len() > 0,
        hash.len() > 0,
        forall|i: int| 0 <= i < mode.len() ==> !text::is_white(#[trigger] mode[i]),
        forall|i: int| 0 <= i < hash.len() ==> !text::is_white(#[trigger] hash[i]),
        tail.len() == 0 || tail[0] == ' ',
        !tail.contains('\t'),
    ensures
        hash_line(mode + " "@ + hash + tail + "\t"@ + path) == Some((path, hash)),
        hash_lines(before.push(mode + " "@ + hash + tail + "\t"@ + path)) == hash_lines(
            before,
        ).insert(path, hash),
{
    reveal_strlit(" ");
    reveal_strlit("\t");
    let none = Seq::<char>::empty();
    let head = mode + " "@ + hash + tail;
    let line = mode + " "@ + hash + tail + "\t"@ + path;
    holds_sign(head, "\t"@);
    if head.contains('\t') {
        let i = head.index_of('\t');
        if i < mode.len() {
            assert(mode[i] == '\t');
        } else if mode.len() < i < mode.len() + 1 + hash.len() {
            assert(hash[i - mode.len() - 1] == '\t');
        } else if i > mode.len() {
            assert(tail[i - mode.len() - 1 - hash.len()] == '\t');
        }
    }
    pieces::split_at_sign(head, "\t"@, path);
    let rest = " "@ + hash + tail;
    assert(none + mode + rest =~= head);
    pieces::word_in_front(none, mode, rest);
    pieces::word_in_front(" "@, hash, tail);
    assert(pieces::words(head)[1] == pieces::words(rest)[0]);
    assert(before.push(line).drop_last() =~= before);
}

/// An entry that is not there yet is put on a line of its own behind what is
/// there, and then it is there; one that is there is not put again.
pub proof fn entry_is_ignored_once(content: Seq<char>, entry: Seq<char>)
    requires
        entry.len() > 0,
        !entry.contains('\n'),
        entry.last() != '\r',
        text::trim(entry) == entry,
    ensures
        match ignoring(content, entry) {
            Some(c) => text::begins(c, content) && ignoring(c, entry) is None,
            None => exists|i: int|
                0 <= i < pieces::lines(content).len() && text::trim(
                    #[trigger] pieces::lines(content)[i],
                ) == entry,
        },
{
    reveal_strlit("\n");
    if let Some(c) = ignoring(content, entry) {
        let front = content + (if text::ends(content, "\n"@) {
            Seq::empty()
        } else {
            "\n"@
        });
        let n = front.len() as int;
        assert(c == front + entry + "\n"@);
        if text::ends(content, "\n"@) {
            let k = content.len() as int;
            assert(content.subrange(k - 1, k)[0] == content.last());
            assert(front =~= content);
        }
        assert(front.last() == '\n');
        let none = Seq::<char>::empty();
        pieces::line_ends_are_dropped(entry, none);
        let b = entry + "\n"@;
        assert(b + none =~= b);
        assert(front + b =~= c);
        pieces::lines_apart(front, b);
        let ls = pieces::lines(c);
        let a = pieces::lines(front);
        assert(ls == a + (seq![entry] + pieces::lines(none)));
        assert(ls[a.len() as int] == entry);
        assert(c.subrange(0, content.len() as int) =~= content);
    }
}

/// A task is matched by its words of four characters and more, in small
/// letters.
pub proof fn long_words_match(ws: Seq<Seq<char>>)
    ensures
        long_words(ws) == ws.filter(|w: Seq<char>| w.len() >= 4).map_values(
            |w: Seq<char>| text::lowercase(w),
        ),
    decreases ws.len(),
{
    reveal(Seq::filter);
    let f = |w: Seq<char>| text::lowercase(w);
    let p = |w: Seq<char>| w.len() >= 4;
    if ws.len() > 0 {
        let t = ws.drop_last();
        long_words_match(t);
        assert(t.filter(p).push(ws.last()).map_values(f) =~= t.filter(p).map_values(f).push(
            f(ws.last()),
        ));
    } else {
        assert(ws.filter(p).map_values(f) =~= Seq::empty());
    }
}

/// A word of the task hits a file's stem where one holds the other, and a name
/// where the name holds it.
pub proof fn hits_are_counted(t: Seq<char>, ws: Seq<Seq<char>>)
    ensures
        stem_hits(t, ws) == ws.filter(
            |w: Seq<char>| text::contains(t, w) || text::contains(w, t),
        ).len(),
        name_hits(t, ws) == ws.filter(|w: Seq<char>| text::contains(t, w)).len(),
    decreases ws.len(),
{
    reveal(Seq::filter);
    if ws.len() > 0 {
        hits_are_counted(t, ws.drop_last());
    }
}

/// Each symbol of a file scores two for each of its hits, and no other symbol
/// does.
pub proof fn symbol_scores_add_up(a: Seq<Symbol>, b: Seq<Symbol>, s: Symbol, file: Seq<char>, ws: Seq<Seq<char>>)
    ensures
        symbol_score(a + b, file, ws) == symbol_score(a, file, ws) + symbol_score(b, file, ws),
        s.file@ == file ==> symbol_score(seq![s], file, ws) == 2 * name_hits(
            text::lowercase(s.name@),
            ws,
        ),
        s.file@ != file ==> symbol_score(seq![s], file, ws) == 0,
        symbol_score(Seq::empty(), file, ws) == 0,
    decreases b.len(),
{
    reveal_with_fuel(symbol_score, 2);
    assert(seq![s].drop_last() =~= Seq::empty());
    if b.len() == 0 {
        assert(a + b =~= a);
    } else {
        symbol_scores_add_up(a, b.drop_last(), s, file, ws);
        assert((a + b).drop_last() =~= a + b.drop_last());
    }
}

/// A cluster shows the symbols of its files, each as its kind and its name.
pub proof fn own_symbols_are_shown(symbols: Seq<SymbolView>, files: Seq<Seq<char>>)
    ensures
        shown_in(symbols, files) == symbols.filter(
            |s: SymbolView| files.contains(s.file),
        ).map_values(|s: SymbolView| index::label(s.kind) + " "@ + s.name),
    decreases symbols.len(),
{
    reveal(Seq::filter);
    let f = |s: SymbolView| index::label(s.kind) + " "@ + s.name;
    let p = |s: SymbolView| files.contains(s.file);
    if symbols.len() > 0 {
        let t = symbols.drop_last();
        own_symbols_are_shown(t, files);
        assert(t.filter(p).push(symbols.last()).map_values(f) =~= t.filter(p).map_values(f).push(
            f(symbols.last()),
        ));
    } else {
        assert(symbols.filter(p).map_values(f) =~= Seq::empty());
    }
}

/// A project has as many files as its clusters have.
pub proof fn files_add_up(a: Seq<Cluster>, b: Seq<Cluster>, c: Cluster)
    ensures
        total_files(Seq::empty()) == 0,
        total_files(seq![c]) == c.files@.len(),
        total_files(a + b) == total_files(a) + total_files(b),
    decreases b.len(),
{
    reveal_with_fuel(total_files, 2);
    assert(seq![c].drop_last() =~= Seq::empty());
    if b.len() == 0 {
        assert(a + b =~= a);
    } else {
        files_add_up(a, b.drop_last(), c);
        assert((a + b).drop_last() =~= a + b.drop_last());
    }
}

/// Neighbouring symbols of one file stand on one line: the lines tell of every
/// symbol, in order, and no two lines behind each other are of one file.
pub proof fn runs_hold_all(symbols: Seq<SymbolView>)
    ensures
        runs(symbols).map_values(|r: (Seq<char>, Seq<Seq<char>>)| r.1).flatten()
            == symbols.map_values(|s: SymbolView| index::label(s.kind) + " "@ + s.name),
        forall|i: int|
            0 <= i < runs(symbols).len() - 1 ==> (#[trigger] runs(symbols)[i]).0 != runs(symbols)[i
                + 1].0,
        symbols.len() > 0 ==> runs(symbols).len() > 0 && runs(symbols).last().0
            == symbols.last().file,
    decreases symbols.len(),
{
    let names = |r: (Seq<char>, Seq<Seq<char>>)| r.1;
    let show = |s: SymbolView| index::label(s.kind) + " "@ + s.name;
    if symbols.len() > 0 {
        let t = symbols.drop_last();
        let s = symbols.last();
        runs_hold_all(t);
        let r = runs(t);
        let q = runs(symbols);
        assert(symbols.map_values(show) =~= t.map_values(show).push(show(s)));
        let x = shown_symbol(s);
        if r.len() > 0 && r.last().0 == s.file {
            let d = r.drop_last();
            assert(r =~= d.push(r.last()));
            assert(r.map_values(names) =~= d.map_values(names).push(r.last().1));
            assert(q.map_values(names) =~= d.map_values(names).push(r.last().1.push(x)));
            d.map_values(names).lemma_flatten_push(r.last().1);
            d.map_values(names).lemma_flatten_push(r.last().1.push(x));
            let flat = d.map_values(names).flatten();
            assert(flat + r.last().1.push(x) =~= (flat + r.last().1).push(x));
            assert forall|i: int| 0 <= i < q.len() - 1 implies (#[trigger] q[i]).0 != q[i + 1].0 by {
                assert(q[i] == r[i]);
                assert(r[i].0 != r[i + 1].0);
            }
        } else {
            assert(q.map_values(names) =~= r.map_values(names).push(seq![x]));
            r.map_values(names).lemma_flatten_push(seq![x]);
            let flat = r.map_values(names).flatten();
            assert(flat + seq![x] =~= flat.push(x));
            assert forall|i: int| 0 <= i < q.len() - 1 implies (#[trigger] q[i]).0 != q[i + 1].0 by {
                assert(q[i] == r[i]);
                if i + 1 < r.len() {
                    assert(q[i + 1] == r[i + 1]);
                    assert(r[i].0 != r[i + 1].0);
                }
            }
        }
    } else {
        assert(runs(symbols).map_values(names) =~= Seq::empty());
        assert(runs(symbols).map_values(names).flatten() =~= Seq::empty());
        assert(symbols.map_values(show) =~= Seq::empty());
    }
}

proof fn by_weight_orders(symbols: Seq<Symbol>)
    ensures
        order::sorts(by_weight(symbols)),
{
    let le = by_weight(symbols);
    order::by_chars_sorts();
    let t = order::by_chars();
    assert forall|a: Seq<char>, b: Seq<char>| #[trigger] le(a, b) || le(b, a) by {
        assert(t(a, b) || t(b, a));
    }
    assert forall|a: Seq<char>, b: Seq<char>, c: Seq<char>| #[trigger] le(a, b) && #[trigger] le(
        b,
        c,
    ) implies le(a, c) by {
        if count_in(symbols, a) == count_in(symbols, b) && count_in(symbols, b) == count_in(symbols, c) {
            assert(t(a, b) && t(b, c));
            assert(t(a, c));
        }
    }
}

/// The files that a cluster is entered by are the three with the most symbols,
/// the heaviest first: none that is left out has more than one that is taken.
pub proof fn heaviest_files_lead(symbols: Seq<Symbol>, files: Seq<Seq<char>>, i: int, f: Seq<char>)
    requires
        0 <= i < heaviest(symbols, files).len(),
        files.contains(f),
    ensures
        files.len() <= 3 ==> heaviest(symbols, files).len() == files.len(),
        files.len() > 3 ==> heaviest(symbols, files).len() == 3,
        files.contains(heaviest(symbols, files)[i]),
        i > 0 ==> symbols_naming(symbols, heaviest(symbols, files)[i - 1]) >= symbols_naming(
            symbols,
            heaviest(symbols, files)[i],
        ),
        heaviest(symbols, files).contains(f) || symbols_naming(
            symbols,
            heaviest(symbols, files)[i],
        ) >= symbols_naming(symbols, f),
{
    let le = by_weight(symbols);
    let sorted = order::sorted_by(files, le);
    let h = heaviest(symbols, files);
    by_weight_orders(symbols);
    order::sorted_is_sorted(files, le);
    order::sorted_same_items(files, le);
    assert(h[i] == sorted[i]);
    assert(sorted.contains(sorted[i]));
    symbols_are_counted(symbols, h[i]);
    symbols_are_counted(symbols, f);
    if i > 0 {
        assert(h[i - 1] == sorted[i - 1]);
        symbols_are_counted(symbols, h[i - 1]);
        assert(le(sorted[i - 1], sorted[i]));
    }
    assert(sorted.contains(f));
    let k = sorted.index_of(f);
    assert(sorted[k] == f);
    if k < h.len() {
        assert(h[k] == f);
    } else {
        assert(le(sorted[i], sorted[k]));
        assert(count_in(symbols, h[i]) >= count_in(symbols, f));
    }
}

/// A name leads to the files it led to and to those of its new symbols, and
/// to no others; what it led to keeps its place.
pub proof fn new_symbols_are_named(
    m: Map<Seq<char>, Seq<Seq<char>>>,
    new: Seq<SymbolView>,
    name: Seq<char>,
    file: Seq<char>,
)
    ensures
        index::list_at(names_with(m, new), name).contains(file) <==> index::list_at(
            m,
            name,
        ).contains(file) || exists|i: int|
            0 <= i < new.len() && (#[trigger] new[i]).name == name && new[i].file == file,
        index::list_at(m, name).is_prefix_of(index::list_at(names_with(m, new), name)),
        index::list_at(m, name).no_duplicates() ==> index::list_at(
            names_with(m, new),
            name,
        ).no_duplicates(),
    decreases new.len(),
{
    if new.len() > 0 {
        let t = new.drop_last();
        let s = new.last();
        let n = new.len() - 1;
        new_symbols_are_named(m, t, name, file);
        let r = names_with(m, t);
        let old_list = index::list_at(r, name);
        let list = index::list_at(names_with(m, new), name);
        assert(new[n] == s);
        assert forall|i: int| 0 <= i < n implies t[i] == #[trigger] new[i] by {}
        if s.name == name {
            assert(list == with_new(old_list, s.file));
            if !old_list.contains(s.file) {
                assert(list[old_list.len() as int] == s.file);
                if old_list.contains(file) {
                    let k = old_list.index_of(file);
                    assert(list[k] == file);
                }
                if list.contains(file) && file != s.file {
                    let k = list.index_of(file);
                    assert(old_list[k] == file);
                }
            }
        } else {
            assert(list == old_list);
        }
        if exists|i: int| 0 <= i < t.len() && (#[trigger] t[i]).name == name && t[i].file == file {
            let i = choose|i: int|
                0 <= i < t.len() && (#[trigger] t[i]).name == name && t[i].file == file;
            assert(new[i] == t[i]);
        }
        if exists|i: int|
            0 <= i < new.len() && (#[trigger] new[i]).name == name && new[i].file == file {
            let i = choose|i: int|
                0 <= i < new.len() && (#[trigger] new[i]).name == name && new[i].file == file;
            if i < n {
                assert(t[i] == new[i]);
            }
        }
    }
}

/// A known file scores one for each word that its stem meets, whatever its
/// letters' case, and any file what its symbols score.
pub proof fn known_files_score_by_their_stems(g: ProjectGraph, file: Seq<char>, ws: Seq<Seq<char>>)
    ensures
        g.file_lines@.dom().contains(file) ==> score(g, file, ws) == ws.filter(
            |w: Seq<char>|
                text::contains(text::lowercase(paths::stem(file)), w) || text::contains(
                    w,
                    text::lowercase(paths::stem(file)),
                ),
        ).len() + symbol_score(g.symbols@, file, ws),
        !g.file_lines@.dom().contains(file) ==> score(g, file, ws) == symbol_score(
            g.symbols@,
            file,
            ws,
        ),
{
    let t = text::lowercase(paths::stem(file));
    hits_are_counted(t, ws);
    let p = |w: Seq<char>| text::contains(t, w) || text::contains(w, t);
    let q = |w: Seq<char>|
        text::contains(text::lowercase(paths::stem(file)), w) || text::contains(
            w,
            text::lowercase(paths::stem(file)),
        );
    assert(p =~= q);
}

proof fn clusters_are_told(g: ProjectGraph, n: int, i: int)
    requires
        0 <= i < n <= g.clusters@.len(),
    ensures
        text::contains(clusters_text(g, n), cluster_text(g, g.clusters@[i])),
    decreases n,
{
    let last = cluster_text(g, g.clusters@[n - 1]);
    let front = clusters_text(g, n - 1);
    let none = Seq::<char>::empty();
    assert(front + last =~= front + last + none);
    assert(front + last =~= none + front + last);
    text::part_is_held(front, last, none);
    if i < n - 1 {
        clusters_are_told(g, n - 1, i);
        text::part_is_held(none, front, last);
        text::part_of_part(front + last, front, cluster_text(g, g.clusters@[i]));
    }
}

/// The structure of a project tells of each of its first clusters, as many as
/// are asked for, and says how many more there are.
pub proof fn first_clusters_are_told(g: ProjectGraph, max: int, i: int)
    requires
        0 <= i < g.clusters@.len(),
        i < max,
    ensures
        prompt_section(g, max) is Some,
        text::contains(prompt_section(g, max)->0, cluster_text(g, g.clusters@[i])),
        g.clusters@.len() > max ==> text::contains(
            prompt_section(g, max)->0,
            "\n… and "@ + number::decimal((g.clusters@.len() - max) as nat) + " more clusters\n"@,
        ),
{
    let n = g.clusters@.len();
    let shown = if n <= max {
        n as int
    } else {
        max
    };
    let head = "# Project structure — "@ + number::decimal(n) + " clusters, "@ + number::decimal(
        total_files(g.clusters@),
    ) + " files\n"@;
    let body = clusters_text(g, shown);
    let rest = if n > max {
        "\n… and "@ + number::decimal((n - max) as nat) + " more clusters\n"@
    } else {
        Seq::empty()
    };
    let s = head + body + rest;
    assert(prompt_section(g, max) == Some(s));
    clusters_are_told(g, shown, i);
    text::part_is_held(head, body, rest);
    text::part_of_part(s, body, cluster_text(g, g.clusters@[i]));
    assert(s =~= head + body + rest + Seq::<char>::empty());
    text::part_is_held(head + body, rest, Seq::empty());
}

} // verus!
