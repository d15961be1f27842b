//! What a project is about, in words.

use crate::client;
use crate::client::{plain_message, Message};
use crate::clock::now;
use crate::context_weights;
use crate::context_weights::ContextWeights;
use crate::index;
use crate::index::{Symbol, SymbolKind};
use crate::json;
use crate::json::{parse_json, parse_or_null, Json, JsonView};
use crate::names::NameMap;
use crate::number;
use crate::number::{decimal_big, decimal_usize};
use crate::order;
use crate::order::sort_by;
use crate::pie;
use crate::pie::{Cluster, ProjectGraph};
use crate::pieces;
use crate::pieces::{join_with, lines_of, split_first, trim_back_text, trim_front_text, words_of};
use crate::task_memory;
use crate::task_memory::{TaskRecord, TaskView};
use crate::text;
use crate::text::{begins_with, count, find_str, one_of, trim_back_by, trim_by, trim_front_by, trimmed, without_first, CharSet};
use vstd::prelude::*;

verus! {

broadcast use crate::text::views_push;

pub const NARRATIVE_SCHEMA_VERSION: u32 = 1;

pub const NARRATIVE_PATH: &'static str = ".parecode/narrative.json";

/// What is known of a project in words.
#[derive(Debug)]
pub struct ProjectNarrative {
    pub schema_version: u32,
    /// The project as a whole.
    pub architecture_summary: String,
    /// Each cluster, by name.
    pub cluster_summaries: NameMap<String>,
    /// What the index shows by itself.
    pub conventions: Vec<String>,
    /// Unix time at which it was written.
    pub last_synthesized: i64,
    /// What has changed since.
    pub patches: Vec<String>,
}

impl Default for ProjectNarrative {
    fn default() -> (r: Self)
        ensures
            r.schema_version == 0,
            r.architecture_summary@ == Seq::<char>::empty(),
            r.cluster_summaries@ == Map::<Seq<char>, String>::empty(),
            r.conventions@.len() == 0,
            r.last_synthesized == 0,
            r.patches@.len() == 0,
    {
        ProjectNarrative {
            schema_version: 0,
            architecture_summary: String::new(),
            cluster_summaries: NameMap::new(),
            conventions: Vec::new(),
            last_synthesized: 0,
            patches: Vec::new(),
        }
    }
}

// ── The context package ──────────────────────────────────────────────────────

/// The items, each on a line of its own behind a dash.
pub open spec fn dashed(items: Seq<Seq<char>>) -> Seq<char>
    decreases items.len(),
{
    if items.len() == 0 {
        Seq::empty()
    } else {
        dashed(items.drop_last()) + "- "@ + items.last() + "\n"@
    }
}

/// A task as it is listed at a time.
pub open spec fn task_line(t: TaskView, now: int) -> Seq<char> {
    "["@ + task_memory::age(task_memory::seconds(t.timestamp, now)) + "] "@ + t.summary
        + if t.files_modified.len() == 0 {
        Seq::empty()
    } else {
        " ("@ + pieces::join(t.files_modified, ", "@) + ")"@
    }
}

pub open spec fn task_lines(ts: Seq<TaskView>, now: int) -> Seq<Seq<char>> {
    Seq::new(ts.len(), |i: int| task_line(ts[i], now))
}

/// The clusters whose names are, or are not, among the names.
pub open spec fn picked(cs: Seq<Cluster>, names: Seq<Seq<char>>, among: bool) -> Seq<Cluster>
    decreases cs.len(),
{
    if cs.len() == 0 {
        Seq::empty()
    } else if names.contains(cs.last().name@) == among {
        picked(cs.drop_last(), names, among).push(cs.last())
    } else {
        picked(cs.drop_last(), names, among)
    }
}

pub open spec fn summary_at(m: Map<Seq<char>, String>, name: Seq<char>) -> Option<Seq<char>> {
    if m.dom().contains(name) {
        Some(m[name]@)
    } else {
        None
    }
}

/// A cluster with all that is known of it.
pub open spec fn cluster_detail(
    m: Map<Seq<char>, String>,
    g: ProjectGraph,
    c: Cluster,
) -> Seq<char> {
    "\n### "@ + c.name@ + " ("@ + number::decimal(c.files@.len()) + " files)\n"@ + (
    match summary_at(m, c.name@) {
        Some(s) => s + "\n"@,
        None => Seq::empty(),
    }) + pie::cluster_body(g, c)
}

pub open spec fn cluster_details(
    m: Map<Seq<char>, String>,
    g: ProjectGraph,
    cs: Seq<Cluster>,
) -> Seq<char>
    decreases cs.len(),
{
    if cs.len() == 0 {
        Seq::empty()
    } else {
        cluster_details(m, g, cs.drop_last()) + cluster_detail(m, g, cs.last())
    }
}

/// A summary in at most fifteen words.
pub open spec fn fifteen_words(s: Seq<char>) -> Seq<char> {
    let ws = pieces::words(s);
    if ws.len() > 15 {
        pieces::join(ws.take(15), " "@) + " …"@
    } else {
        s
    }
}

/// A cluster on one line.
pub open spec fn cluster_brief(m: Map<Seq<char>, String>, c: Cluster) -> Seq<char> {
    "### "@ + c.name@ + " ("@ + number::decimal(c.files@.len()) + (match summary_at(m, c.name@) {
        Some(s) => " files) — "@ + fifteen_words(s) + "\n"@,
        None => " files)\n"@,
    })
}

pub open spec fn cluster_briefs(m: Map<Seq<char>, String>, cs: Seq<Cluster>) -> Seq<char>
    decreases cs.len(),
{
    if cs.len() == 0 {
        Seq::empty()
    } else {
        cluster_briefs(m, cs.drop_last()) + cluster_brief(m, cs.last())
    }
}

/// Whether a cluster weighs at least as much as another, by the files that
/// lead into it.
pub open spec fn by_weight(w: Map<Seq<char>, i64>) -> spec_fn(Cluster, Cluster) -> bool {
    |a: Cluster, b: Cluster|
        context_weights::not_lighter(
            context_weights::mean(w, text::views(a.entry_files@)),
            context_weights::mean(w, text::views(b.entry_files@)),
        )
}

/// The clusters that are not relevant, as they are listed; where none is
/// relevant, the heaviest first.
pub open spec fn listed_others(
    cs: Seq<Cluster>,
    names: Seq<Seq<char>>,
    w: Map<Seq<char>, i64>,
) -> Seq<Cluster> {
    let others = picked(cs, names, false);
    if picked(cs, names, true).len() == 0 {
        order::sorted_by(others, by_weight(w))
    } else {
        others
    }
}

/// What is said of the clusters: the relevant ones in full, and the others
/// on a line each as far as there is room. Where no cluster is relevant and
/// there is no room for others, none is shown.
pub open spec fn clusters_section(
    m: Map<Seq<char>, String>,
    g: ProjectGraph,
    names: Seq<Seq<char>>,
    max: int,
    w: Map<Seq<char>, i64>,
) -> Seq<char> {
    let rel = picked(g.clusters@, names, true);
    let others = listed_others(g.clusters@, names, w);
    let room = if max > rel.len() {
        max - rel.len()
    } else {
        0
    };
    (if rel.len() > 0 {
        "\n## Relevant clusters\n"@ + cluster_details(m, g, rel)
    } else {
        Seq::empty()
    }) + (if others.len() > 0 && room > 0 {
        "\n## Other clusters\n"@ + cluster_briefs(m, task_memory::front(others, room)) + (
        if others.len() > room {
            "… and "@ + number::decimal((others.len() - room) as nat) + " more clusters\n"@
        } else {
            Seq::empty()
        })
    } else if rel.len() == 0 {
        "\n## Clusters\n"@ + (if others.len() > 0 {
            "\n… and "@ + number::decimal(others.len()) + " more clusters\n"@
        } else {
            Seq::empty()
        })
    } else {
        Seq::empty()
    })
}

/// What a prompt is told of a project at a time.
pub open spec fn package(
    n: ProjectNarrative,
    g: ProjectGraph,
    names: Seq<Seq<char>>,
    max: int,
    tasks: Seq<TaskView>,
    w: Map<Seq<char>, i64>,
    now: int,
) -> Seq<char> {
    if n.architecture_summary@.len() == 0 {
        match pie::prompt_section(g, max) {
            Some(s) => s,
            None => Seq::empty(),
        }
    } else {
        "# Project architecture\n"@ + n.architecture_summary@ + "\n"@ + (if n.conventions@.len()
            > 0 {
            "\n## Conventions\n"@ + dashed(text::views(n.conventions@))
        } else {
            Seq::empty()
        }) + (if tasks.len() > 0 {
            "\n## Recent relevant tasks\n"@ + dashed(
                task_lines(task_memory::front(tasks, 3), now),
            )
        } else {
            Seq::empty()
        }) + clusters_section(n.cluster_summaries@, g, names, max, w)
    }
}

fn dash_lines(items: &Vec<String>) -> (r: String)
    ensures
        r@ == dashed(text::views(items@)),
{
    let ghost iv = text::views(items@);
    let mut out = String::new();
    let mut i: usize = 0;
    assert(iv.take(0) =~= Seq::<Seq<char>>::empty());
    while i < items.len()
        invariant
            i <= items.len(),
            iv == text::views(items@),
            out@ == dashed(iv.take(i as int)),
        decreases items.len() - i,
    {
        assert(iv.take(i + 1).drop_last() =~= iv.take(i as int));
        assert(iv.take(i + 1).last() == items@[i as int]@);
        out.append("- ");
        out.append(items[i].as_str());
        out.append("\n");
        i += 1;
    }
    assert(iv.take(i as int) =~= iv);
    out
}

fn list_tasks(tasks: &Vec<TaskRecord>, now: i64) -> (r: Vec<String>)
    ensures
        text::views(r@) == task_lines(
            task_memory::front(task_memory::task_views(tasks@), 3),
            now as int,
        ),
{
    let ghost tv = task_memory::task_views(tasks@);
    let mut out: Vec<String> = Vec::new();
    let mut i: usize = 0;
    while i < tasks.len() && i < 3
        invariant
            i <= tasks.len(),
            i <= 3,
            out.len() == i,
            tv == task_memory::task_views(tasks@),
            forall|k: int| 0 <= k < i ==> (#[trigger] out@[k])@ == task_line(tv[k], now as int),
        decreases tasks.len() - i,
    {
        assert(tv[i as int] == tasks@[i as int]@);
        let mut s = "[".to_owned();
        s.append(tasks[i].age_str_at(now).as_str());
        s.append("] ");
        s.append(tasks[i].summary.as_str());
        let ghost base = s@;
        assert(tv[i as int].files_modified.len() == tasks@[i as int].files_modified@.len());
        if tasks[i].files_modified.len() > 0 {
            let mut files = " (".to_owned();
            files.append(join_with(&tasks[i].files_modified, ", ").as_str());
            files.append(")");
            s.append(files.as_str());
        } else {
            assert(base + Seq::<char>::empty() =~= base);
        }
        out.push(s);
        i += 1;
    }
    assert(text::views(out@) =~= task_lines(task_memory::front(tv, 3), now as int));
    out
}

pub open spec fn derefs(v: Seq<&Cluster>) -> Seq<Cluster> {
    Seq::new(v.len(), |i: int| *v[i])
}

fn pick<'a>(cs: &'a Vec<Cluster>, names: &[&str], among: bool) -> (r: Vec<&'a Cluster>)
    ensures
        derefs(r@) == picked(cs@, text::texts(names@), among),
{
    let mut out: Vec<&'a Cluster> = Vec::new();
    let mut i: usize = 0;
    assert(cs@.take(0) =~= Seq::<Cluster>::empty());
    assert(derefs(out@) =~= Seq::<Cluster>::empty());
    while i < cs.len()
        invariant
            i <= cs.len(),
            derefs(out@) == picked(cs@.take(i as int), text::texts(names@), among),
        decreases cs.len() - i,
    {
        assert(cs@.take(i + 1).drop_last() =~= cs@.take(i as int));
        if one_of(cs[i].name.as_str(), names) == among {
            let ghost before = derefs(out@);
            out.push(&cs[i]);
            assert(derefs(out@) =~= before.push(cs@[i as int]));
        }
        i += 1;
    }
    assert(cs@.take(i as int) =~= cs@);
    out
}

fn cut_words(s: &str) -> (r: String)
    ensures
        r@ == fifteen_words(s@),
{
    let ws = words_of(s);
    let ghost wv = text::views(ws@);
    assert(wv.len() == ws@.len());
    if ws.len() > 15 {
        let head = pie::first_strings(&ws, 15);
        assert(text::views(head@) =~= wv.take(15));
        let mut out = join_with(&head, " ");
        out.append(" …");
        out
    } else {
        s.to_owned()
    }
}

fn sort_by_weight(cs: &mut Vec<&Cluster>, weights: &ContextWeights)
    ensures
        derefs(final(cs)@) == order::sorted_by(
            derefs(old(cs)@),
            by_weight(weights.file_weights@),
        ),
{
    let ghost raw = cs@;
    let ghost w = weights.file_weights@;
    let ghost rel = |a: &Cluster, b: &Cluster| by_weight(w)(*a, *b);
    let le = |a: &&Cluster, b: &&Cluster| -> (r: bool)
        ensures r == by_weight(weights.file_weights@)(**a, **b)
        {
            weights.weigh_as_much(&a.entry_files, &b.entry_files)
        };
    sort_by(cs, le, Ghost(rel));
    proof {
        let f = |c: &Cluster| *c;
        let p = |c: &Cluster| true;
        order::sorted_map(raw, p, f, rel, by_weight(w));
        assert(raw.map_values(f) =~= derefs(raw));
        assert(cs@.map_values(f) =~= derefs(cs@));
    }
}

impl ProjectNarrative {
    /// Whether what was stored can be used.
    pub fn usable(&self) -> (r: bool)
        ensures
            r == (self.schema_version == NARRATIVE_SCHEMA_VERSION && self.architecture_summary@.len()
                > 0),
    {
        self.schema_version == NARRATIVE_SCHEMA_VERSION && count(self.architecture_summary.as_str())
            > 0
    }

    fn detail_of(&self, graph: &ProjectGraph, c: &Cluster) -> (r: String)
        ensures
            r@ == cluster_detail(self.cluster_summaries@, *graph, *c),
    {
        let mut out = "\n### ".to_owned();
        out.append(c.name.as_str());
        out.append(" (");
        out.append(decimal_usize(c.files.len()).as_str());
        out.append(" files)\n");
        let ghost base = out@;
        match self.cluster_summaries.get(c.name.as_str()) {
            Some(s) => {
                let mut line = s.clone();
                line.append("\n");
                out.append(line.as_str());
            },
            None => {
                assert(base + Seq::<char>::empty() =~= base);
            },
        }
        out.append(graph.body_of_cluster(c).as_str());
        out
    }

    fn brief_of(&self, c: &Cluster) -> (r: String)
        ensures
            r@ == cluster_brief(self.cluster_summaries@, *c),
    {
        let mut out = "### ".to_owned();
        out.append(c.name.as_str());
        out.append(" (");
        out.append(decimal_usize(c.files.len()).as_str());
        let mut rest = String::new();
        match self.cluster_summaries.get(c.name.as_str()) {
            Some(s) => {
                rest.append(" files) — ");
                rest.append(cut_words(s.as_str()).as_str());
                rest.append("\n");
                assert(rest@ =~= " files) — "@ + fifteen_words(s@) + "\n"@);
            },
            None => {
                rest.append(" files)\n");
                assert(rest@ =~= " files)\n"@);
            },
        }
        out.append(rest.as_str());
        out
    }

    fn relevant_section(&self, graph: &ProjectGraph, cs: &Vec<&Cluster>) -> (r: String)
        ensures
            r@ == (if cs.len() > 0 {
                "\n## Relevant clusters\n"@ + cluster_details(
                    self.cluster_summaries@,
                    *graph,
                    derefs(cs@),
                )
            } else {
                Seq::empty()
            }),
    {
        if cs.len() == 0 {
            return String::new();
        }
        let ghost m = self.cluster_summaries@;
        let ghost dv = derefs(cs@);
        let mut body = String::new();
        let mut i: usize = 0;
        assert(dv.take(0) =~= Seq::<Cluster>::empty());
        while i < cs.len()
            invariant
                i <= cs.len(),
                dv == derefs(cs@),
                m == self.cluster_summaries@,
                body@ == cluster_details(m, *graph, dv.take(i as int)),
            decreases cs.len() - i,
        {
            assert(dv.take(i + 1).drop_last() =~= dv.take(i as int));
            assert(dv.take(i + 1).last() == *cs@[i as int]);
            body.append(self.detail_of(graph, cs[i]).as_str());
            i += 1;
        }
        assert(dv.take(i as int) =~= dv);
        let mut out = "\n## Relevant clusters\n".to_owned();
        out.append(body.as_str());
        out
    }

    fn other_section(&self, cs: &Vec<&Cluster>, room: usize) -> (r: String)
        ensures
            r@ == "\n## Other clusters\n"@ + cluster_briefs(
                self.cluster_summaries@,
                task_memory::front(derefs(cs@), room as int),
            ) + (if cs.len() > room {
                "… and "@ + number::decimal((cs.len() - room) as nat) + " more clusters\n"@
            } else {
                Seq::empty()
            }),
    {
        let ghost m = self.cluster_summaries@;
        let ghost dv = derefs(cs@);
        let mut body = String::new();
        let mut i: usize = 0;
        assert(dv.take(0) =~= Seq::<Cluster>::empty());
        while i < cs.len() && i < room
            invariant
                i <= cs.len(),
                i <= room,
                dv == derefs(cs@),
                m == self.cluster_summaries@,
                body@ == cluster_briefs(m, dv.take(i as int)),
            decreases cs.len() - i,
        {
            assert(dv.take(i + 1).drop_last() =~= dv.take(i as int));
            assert(dv.take(i + 1).last() == *cs@[i as int]);
            body.append(self.brief_of(cs[i]).as_str());
            i += 1;
        }
        assert(dv.take(i as int) =~= task_memory::front(dv, room as int));
        let mut out = "\n## Other clusters\n".to_owned();
        out.append(body.as_str());
        let ghost base = out@;
        if cs.len() > room {
            let mut more = "… and ".to_owned();
            more.append(decimal_usize(cs.len() - room).as_str());
            more.append(" more clusters\n");
            out.append(more.as_str());
        } else {
            assert(base + Seq::<char>::empty() =~= base);
        }
        out
    }

    fn section_of_clusters(
        &self,
        graph: &ProjectGraph,
        relevant_clusters: &[&str],
        max_clusters: usize,
        weights: &ContextWeights,
    ) -> (r: String)
        ensures
            r@ == clusters_section(
                self.cluster_summaries@,
                *graph,
                text::texts(relevant_clusters@),
                max_clusters as int,
                weights.file_weights@,
            ),
    {
        let rel = pick(&graph.clusters, relevant_clusters, true);
        let mut others = pick(&graph.clusters, relevant_clusters, false);
        assert(derefs(rel@).len() == rel@.len());
        if rel.len() == 0 {
            sort_by_weight(&mut others, weights);
        }
        assert(derefs(others@).len() == others@.len());
        let room: usize = max_clusters.saturating_sub(rel.len());
        let mut out = self.relevant_section(graph, &rel);
        let ghost base = out@;
        if others.len() > 0 && room > 0 {
            out.append(self.other_section(&others, room).as_str());
        } else if rel.len() == 0 {
            let mut s = "\n## Clusters\n".to_owned();
            let ghost head = s@;
            if others.len() > 0 {
                let mut more = "\n… and ".to_owned();
                more.append(decimal_usize(others.len()).as_str());
                more.append(" more clusters\n");
                s.append(more.as_str());
            } else {
                assert(head + Seq::<char>::empty() =~= head);
            }
            out.append(s.as_str());
        } else {
            assert(base + Seq::<char>::empty() =~= base);
        }
        out
    }

    /// What a prompt is told of a project at a time: the project as a whole,
    /// what the index shows, what was done lately, and the clusters. Without
    /// words of its own it is the project's structure.
    pub fn context_package_at(
        &self,
        graph: &ProjectGraph,
        relevant_clusters: &[&str],
        max_clusters: usize,
        recent_tasks: &Vec<TaskRecord>,
        weights: &ContextWeights,
        now: i64,
    ) -> (r: String)
        ensures
            r@ == package(
                *self,
                *graph,
                text::texts(relevant_clusters@),
                max_clusters as int,
                task_memory::task_views(recent_tasks@),
                weights.file_weights@,
                now as int,
            ),
    {
        if count(self.architecture_summary.as_str()) == 0 {
            return match graph.to_prompt_section(max_clusters) {
                Some(s) => s,
                None => String::new(),
            };
        }
        let mut out = "# Project architecture\n".to_owned();
        out.append(self.architecture_summary.as_str());
        out.append("\n");
        let ghost b1 = out@;
        if self.conventions.len() > 0 {
            let mut s = "\n## Conventions\n".to_owned();
            s.append(dash_lines(&self.conventions).as_str());
            out.append(s.as_str());
        } else {
            assert(b1 + Seq::<char>::empty() =~= b1);
        }
        let ghost b2 = out@;
        let ghost tv = task_memory::task_views(recent_tasks@);
        assert(tv.len() == recent_tasks@.len());
        if recent_tasks.len() > 0 {
            let lines = list_tasks(recent_tasks, now);
            let mut s = "\n## Recent relevant tasks\n".to_owned();
            s.append(dash_lines(&lines).as_str());
            out.append(s.as_str());
        } else {
            assert(b2 + Seq::<char>::empty() =~= b2);
        }
        out.append(
            self.section_of_clusters(graph, relevant_clusters, max_clusters, weights).as_str(),
        );
        out
    }

    /// What a prompt is told of a project.
    pub fn to_context_package(
        &self,
        graph: &ProjectGraph,
        relevant_clusters: &[&str],
        max_clusters: usize,
        recent_tasks: &Vec<TaskRecord>,
        weights: &ContextWeights,
    ) -> (r: String)
        ensures
            exists|t: int|
                r@ == #[trigger] package(
                    *self,
                    *graph,
                    text::texts(relevant_clusters@),
                    max_clusters as int,
                    task_memory::task_views(recent_tasks@),
                    weights.file_weights@,
                    t,
                ),
    {
        let t: i64 = now();
        self.context_package_at(graph, relevant_clusters, max_clusters, recent_tasks, weights, t)
    }

    /// A narrative out of a model's answer at a time. Without an answer it
    /// has what the index shows and no more.
    pub fn from_answer(
        graph: &ProjectGraph,
        answer: Option<(String, NameMap<String>)>,
        now: i64,
    ) -> (r: Self)
        ensures
            r.schema_version == NARRATIVE_SCHEMA_VERSION,
            match answer {
                Some((s, m)) => r.architecture_summary@ == s@ && r.cluster_summaries@ == m@,
                None => r.architecture_summary@.len() == 0 && r.cluster_summaries@ == Map::<
                    Seq<char>,
                    String,
                >::empty(),
            },
            text::views(r.conventions@) == conventions(*graph),
            r.last_synthesized == now,
            r.patches@.len() == 0,
    {
        let (architecture_summary, cluster_summaries) = match answer {
            Some((s, m)) => (s, m),
            None => (String::new(), NameMap::new()),
        };
        ProjectNarrative {
            schema_version: NARRATIVE_SCHEMA_VERSION,
            architecture_summary,
            cluster_summaries,
            conventions: detect_conventions(graph),
            last_synthesized: now,
            patches: Vec::new(),
        }
    }
}

/// Every cluster is either relevant or another one, and none is lost.
pub proof fn clusters_are_split(cs: Seq<Cluster>, names: Seq<Seq<char>>)
    ensures
        picked(cs, names, true).len() + picked(cs, names, false).len() == cs.len(),
        picked(cs, names, true).to_multiset().add(picked(cs, names, false).to_multiset())
            == cs.to_multiset(),
    decreases cs.len(),
{
    broadcast use vstd::seq_lib::group_to_multiset_ensures;

    if cs.len() > 0 {
        clusters_are_split(cs.drop_last(), names);
        let (rel, rest) = (picked(cs, names, true), picked(cs, names, false));
        assert(cs =~= cs.drop_last().push(cs.last()));
        assert(rel.to_multiset().add(rest.to_multiset()) =~= cs.to_multiset());
    } else {
        let none = Seq::<Cluster>::empty();
        assert(cs =~= none);
        assert(none.to_multiset().add(none.to_multiset()) =~= none.to_multiset());
    }
}

proof fn quotients_chain(a: (int, int), b: (int, int), c: (int, int))
    requires
        a.1 > 0,
        b.1 > 0,
        c.1 > 0,
        context_weights::not_lighter(a, b),
        context_weights::not_lighter(b, c),
    ensures
        context_weights::not_lighter(a, c),
{
    let (a0, a1, b0, b1, c0, c1) = (a.0, a.1, b.0, b.1, c.0, c.1);
    assert(a0 * c1 >= c0 * a1) by (nonlinear_arith)
        requires
            a1 > 0,
            b1 > 0,
            c1 > 0,
            a0 * b1 >= b0 * a1,
            b0 * c1 >= c0 * b1,
    {
        assert((a0 * b1) * c1 >= (b0 * a1) * c1);
        assert((b0 * c1) * a1 >= (c0 * b1) * a1);
        assert(b1 * (a0 * c1) >= b1 * (c0 * a1));
    }
}

proof fn by_weight_sorts(w: Map<Seq<char>, i64>)
    ensures
        order::sorts(by_weight(w)),
{
    let le = by_weight(w);
    assert forall|a: Cluster, b: Cluster, c: Cluster| #[trigger] le(a, b) && #[trigger] le(
        b,
        c,
    ) implies le(a, c) by {
        quotients_chain(
            context_weights::mean(w, text::views(a.entry_files@)),
            context_weights::mean(w, text::views(b.entry_files@)),
            context_weights::mean(w, text::views(c.entry_files@)),
        );
    }
}

/// Where no cluster is relevant, no cluster that is listed weighs less than
/// one that is listed behind it.
pub proof fn heaviest_come_first(
    cs: Seq<Cluster>,
    names: Seq<Seq<char>>,
    w: Map<Seq<char>, i64>,
    i: int,
    j: int,
)
    requires
        picked(cs, names, true).len() == 0,
        0 <= i < j < listed_others(cs, names, w).len(),
    ensures
        context_weights::not_lighter(
            context_weights::mean(
                w,
                text::views(listed_others(cs, names, w)[i].entry_files@),
            ),
            context_weights::mean(
                w,
                text::views(listed_others(cs, names, w)[j].entry_files@),
            ),
        ),
{
    by_weight_sorts(w);
    order::sorted_is_sorted(picked(cs, names, false), by_weight(w));
    let l = listed_others(cs, names, w);
    assert(by_weight(w)(l[i], l[j]));
}

// ── What the index shows ─────────────────────────────────────────────────────

pub open spec fn names_of(cs: Seq<Cluster>) -> Seq<Seq<char>> {
    Seq::new(cs.len(), |i: int| cs[i].name@)
}

pub open spec fn of_kind(symbols: Seq<Symbol>, kind: SymbolKind) -> nat
    decreases symbols.len(),
{
    if symbols.len() == 0 {
        0
    } else {
        of_kind(symbols.drop_last(), kind) + if symbols.last().kind == kind {
            1nat
        } else {
            0
        }
    }
}

/// How many clusters there are, and which.
pub open spec fn clusters_told(g: ProjectGraph) -> Seq<char> {
    number::decimal(g.clusters@.len()) + " source clusters"@ + if g.clusters@.len() > 0 {
        ": "@ + pieces::join(names_of(g.clusters@), ", "@)
    } else {
        Seq::empty()
    }
}

/// How many symbols there are, and of what kinds.
pub open spec fn symbols_told(g: ProjectGraph) -> Seq<char> {
    number::decimal(g.symbols@.len()) + " symbols total ("@ + number::decimal(
        of_kind(g.symbols@, SymbolKind::Function),
    ) + " functions, "@ + number::decimal(of_kind(g.symbols@, SymbolKind::Struct))
        + " structs/types)"@
}

/// The clusters, the symbols and the files of a graph, each where there are
/// any; where `all` is set, the clusters and the symbols in any case.
pub open spec fn told(g: ProjectGraph, all: bool) -> Seq<Seq<char>> {
    (if all || g.clusters@.len() > 0 {
        seq![clusters_told(g)]
    } else {
        Seq::empty()
    }) + (if all || of_kind(g.symbols@, SymbolKind::Function) > 0 || of_kind(
        g.symbols@,
        SymbolKind::Struct,
    ) > 0 {
        seq![symbols_told(g)]
    } else {
        Seq::empty()
    }) + (if g.file_lines.names().len() > 0 {
        seq![number::decimal(g.file_lines.names().len()) + " indexed source files"@]
    } else {
        Seq::empty()
    })
}

/// What the index shows by itself: what there is of clusters, symbols and
/// files, or also what there is not, where that would be less than two lines.
pub open spec fn conventions(g: ProjectGraph) -> Seq<Seq<char>> {
    if told(g, false).len() >= 2 {
        told(g, false)
    } else {
        told(g, true)
    }
}

fn count_kinds(symbols: &Vec<Symbol>) -> (r: (usize, usize))
    ensures
        r.0 == of_kind(symbols@, SymbolKind::Function),
        r.1 == of_kind(symbols@, SymbolKind::Struct),
{
    let mut fns: usize = 0;
    let mut structs: usize = 0;
    let mut i: usize = 0;
    assert(symbols@.take(0) =~= Seq::<Symbol>::empty());
    while i < symbols.len()
        invariant
            i <= symbols.len(),
            fns <= i,
            structs <= i,
            fns == of_kind(symbols@.take(i as int), SymbolKind::Function),
            structs == of_kind(symbols@.take(i as int), SymbolKind::Struct),
        decreases symbols.len() - i,
    {
        assert(symbols@.take(i + 1).drop_last() =~= symbols@.take(i as int));
        match symbols[i].kind {
            SymbolKind::Function => {
                fns += 1;
            },
            SymbolKind::Struct => {
                structs += 1;
            },
            _ => {},
        }
        i += 1;
    }
    assert(symbols@.take(i as int) =~= symbols@);
    (fns, structs)
}

fn cluster_names(cs: &Vec<Cluster>) -> (r: Vec<String>)
    ensures
        text::views(r@) == names_of(cs@),
{
    let mut out: Vec<String> = Vec::new();
    let mut i: usize = 0;
    while i < cs.len()
        invariant
            i <= cs.len(),
            out.len() == i,
            forall|k: int| 0 <= k < i ==> (#[trigger] out@[k])@ == cs@[k].name@,
        decreases cs.len() - i,
    {
        out.push(cs[i].name.clone());
        i += 1;
    }
    assert(text::views(out@) =~= names_of(cs@));
    out
}

fn tell(graph: &ProjectGraph, all: bool) -> (r: Vec<String>)
    ensures
        text::views(r@) == told(*graph, all),
{
    let mut out: Vec<String> = Vec::new();
    proof {
        text::views_empty();
    }
    if all || graph.clusters.len() > 0 {
        let mut s = decimal_usize(graph.clusters.len());
        s.append(" source clusters");
        if graph.clusters.len() > 0 {
            s.append(": ");
            s.append(join_with(&cluster_names(&graph.clusters), ", ").as_str());
        }
        assert(s@ =~= clusters_told(*graph));
        out.push(s);
    }
    let (fns, structs) = count_kinds(&graph.symbols);
    if all || fns > 0 || structs > 0 {
        let mut s = decimal_usize(graph.symbols.len());
        s.append(" symbols total (");
        s.append(decimal_usize(fns).as_str());
        s.append(" functions, ");
        s.append(decimal_usize(structs).as_str());
        s.append(" structs/types)");
        assert(s@ =~= symbols_told(*graph));
        out.push(s);
    }
    let files: usize = graph.file_lines.len();
    if files > 0 {
        let mut s = decimal_usize(files);
        s.append(" indexed source files");
        out.push(s);
    }
    assert(text::views(out@) =~= told(*graph, all));
    out
}

/// What the index shows by itself, in two or three lines.
pub fn detect_conventions(graph: &ProjectGraph) -> (r: Vec<String>)
    ensures
        text::views(r@) == conventions(*graph),
        2 <= r@.len() <= 3,
{
    let out = tell(graph, false);
    assert(text::views(out@).len() == out@.len());
    if out.len() >= 2 {
        out
    } else {
        let counted = tell(graph, true);
        assert(text::views(counted@).len() == counted@.len());
        counted
    }
}

// ── Asking a model ───────────────────────────────────────────────────────────

pub const NARRATIVE_SYSTEM_PROMPT: &'static str = "You are analyzing a software project from its structural symbol index. The project name and description are given at the top of the user message — use them. Produce a concise factual JSON description of what the project does. Be specific to this project, not generic. Focus on the source code clusters, not docs or config files. Respond ONLY with valid JSON — no markdown fences, no explanation:\n{\n\"architecture_summary\": \"<100 words max, factual description of what this project does and how it's structured>\",\n\"cluster_summaries\": {\n\"<cluster_name>\": \"<30 words max per cluster>\"\n}\n}";

/// The name that a line of a manifest like `name = "x"` gives.
pub open spec fn name_in_line(line: Seq<char>) -> Option<Seq<char>> {
    let t = text::trim(line);
    if text::begins(t, "name"@) {
        match pieces::split_once(t, "="@) {
            Some((_, v)) => {
                let n = text::trim_set(
                    text::trim_set(text::trim(v), CharSet::OneOf("\"")),
                    CharSet::OneOf("'"),
                );
                if n.len() > 0 {
                    Some(n)
                } else {
                    None
                }
            },
            None => None,
        }
    } else {
        None
    }
}

pub open spec fn name_in_lines(ls: Seq<Seq<char>>) -> Option<Seq<char>>
    decreases ls.len(),
{
    if ls.len() == 0 {
        None
    } else {
        match name_in_line(ls[0]) {
            Some(n) => Some(n),
            None => name_in_lines(ls.skip(1)),
        }
    }
}

fn read_name_line(line: &str) -> (r: Option<String>)
    ensures
        text::opt_text(r) == name_in_line(line@),
{
    let t = trimmed(line);
    if begins_with(t.as_str(), "name") {
        match split_first(t.as_str(), "=") {
            Some((_, v)) => {
                let a = trim_by(trimmed(v.as_str()).as_str(), CharSet::OneOf("\""));
                let n = trim_by(a.as_str(), CharSet::OneOf("'"));
                if count(n.as_str()) > 0 {
                    Some(n)
                } else {
                    None
                }
            },
            None => None,
        }
    } else {
        None
    }
}

fn read_name(content: &str) -> (r: Option<String>)
    ensures
        text::opt_text(r) == name_in_lines(pieces::lines(content@)),
{
    let ls = lines_of(content);
    let ghost lv = text::views(ls@);
    let mut i: usize = 0;
    assert(lv.skip(0) =~= lv);
    while i < ls.len()
        invariant
            i <= ls.len(),
            lv == text::views(ls@),
            lv == pieces::lines(content@),
            name_in_lines(lv) == name_in_lines(lv.skip(i as int)),
        decreases ls.len() - i,
    {
        assert(lv.skip(i as int)[0] == ls@[i as int]@);
        assert(lv.skip(i as int).skip(1) =~= lv.skip(i + 1));
        match read_name_line(ls[i].as_str()) {
            Some(n) => {
                return Some(n);
            },
            None => {},
        }
        i += 1;
    }
    None
}

/// The project's name out of `Cargo.toml`, or else out of `package.json`.
pub fn detect_project_name(cargo_toml: Option<&str>, package_json: Option<&str>) -> (r: Option<
    String,
>)
    ensures
        ({
            let in_cargo = match cargo_toml {
                Some(c) => name_in_lines(pieces::lines(c@)),
                None => None,
            };
            text::opt_text(r) == (match (in_cargo, package_json) {
                (Some(n), _) => Some(n),
                (None, Some(p)) => json::json_or_null(p@).at("name"@).text(),
                (None, None) => None,
            })
        }),
{
    if let Some(c) = cargo_toml {
        if let Some(n) = read_name(c) {
            return Some(n);
        }
    }
    match package_json {
        Some(p) => parse_or_null(p).text_of("name"),
        None => None,
    }
}

/// The clusters of source code: all but `root`.
pub open spec fn code_clusters(cs: Seq<Cluster>) -> Seq<Cluster> {
    picked(cs, seq!["root"@], false)
}

pub open spec fn code_texts(g: ProjectGraph, cs: Seq<Cluster>) -> Seq<char>
    decreases cs.len(),
{
    if cs.len() == 0 {
        Seq::empty()
    } else {
        code_texts(g, cs.drop_last()) + pie::cluster_text(g, cs.last())
    }
}

/// The project's structure without its documents and settings.
pub open spec fn code_section(g: ProjectGraph) -> Seq<char> {
    let cs = code_clusters(g.clusters@);
    if cs.len() == 0 {
        match pie::prompt_section(g, 12) {
            Some(s) => s,
            None => Seq::empty(),
        }
    } else {
        "# Project structure — "@ + number::decimal(cs.len()) + " clusters, "@ + number::decimal(
            pie::total_files(cs),
        ) + " files\n"@ + code_texts(g, cs)
    }
}

/// The project's structure without its documents and settings.
pub fn build_code_only_section(graph: &ProjectGraph) -> (r: String)
    ensures
        r@ == code_section(*graph),
{
    let skip = ["root"];
    assert(text::texts(skip@) =~= seq!["root"@]);
    let cs = pick(&graph.clusters, &skip, false);
    let ghost dv = derefs(cs@);
    assert(dv.len() == cs@.len());
    if cs.len() == 0 {
        return match graph.to_prompt_section(12) {
            Some(s) => s,
            None => String::new(),
        };
    }
    let mut total: u128 = 0;
    let mut body = String::new();
    let mut i: usize = 0;
    assert(dv.take(0) =~= Seq::<Cluster>::empty());
    while i < cs.len()
        invariant
            i <= cs.len(),
            dv == derefs(cs@),
            total == pie::total_files(dv.take(i as int)),
            total <= i * 0xffff_ffff_ffff_ffff,
            body@ == code_texts(*graph, dv.take(i as int)),
        decreases cs.len() - i,
    {
        assert(dv.take(i + 1).drop_last() =~= dv.take(i as int));
        assert(dv.take(i + 1).last() == *cs@[i as int]);
        total += cs[i].files.len() as u128;
        body.append(graph.cluster_section(cs[i]).as_str());
        i += 1;
    }
    assert(dv.take(i as int) =~= dv);
    let mut out = "# Project structure — ".to_owned();
    out.append(decimal_usize(cs.len()).as_str());
    out.append(" clusters, ");
    out.append(decimal_big(total).as_str());
    out.append(" files\n");
    out.append(body.as_str());
    out
}

/// What a model is asked: the project's name and its structure.
pub fn narrative_messages(
    graph: &ProjectGraph,
    project_name: Option<&str>,
    directory: Option<&str>,
) -> (r: Vec<Message>)
    ensures
        client::message_views(r@) == seq![
            client::text_message(
                "user"@,
                "Project name: "@ + (match (project_name, directory) {
                    (Some(n), _) => n@,
                    (None, Some(d)) => d@,
                    (None, None) => "this project"@,
                }) + "\n\n"@ + code_section(*graph),
            ),
        ],
{
    let name = match project_name {
        Some(n) => n,
        None => match directory {
            Some(d) => d,
            None => "this project",
        },
    };
    let mut s = "Project name: ".to_owned();
    s.append(name);
    s.append("\n\n");
    s.append(build_code_only_section(graph).as_str());
    let mut out: Vec<Message> = Vec::new();
    out.push(plain_message("user", s));
    assert(client::message_views(out@) =~= seq![out@[0]@]);
    out
}

/// A text without the fences of a code block round it.
pub open spec fn unfenced(s: Seq<char>) -> Seq<char> {
    let a = text::trim_start_set(
        pieces::trim_start_text(pieces::trim_start_text(s, "```json"@), "```"@),
        CharSet::White,
    );
    text::trim_end_set(pieces::trim_end_text(a, "```"@), CharSet::White)
}

/// A text without the fences of a code block round it.
pub fn strip_markdown_fences(s: &str) -> (r: String)
    ensures
        r@ == unfenced(s@),
{
    proof {
        reveal_strlit("```json");
        reveal_strlit("```");
    }
    let a = trim_front_text(s, "```json");
    let b = trim_front_text(a.as_str(), "```");
    let c = trim_front_by(b.as_str(), CharSet::White);
    let d = trim_back_text(c.as_str(), "```");
    trim_back_by(d.as_str(), CharSet::White)
}

/// Why a model's answer is no narrative.
#[derive(Debug, PartialEq, Eq)]
pub enum NarrativeError {
    /// It holds no object.
    NoObject,
    /// What it holds is not JSON, or not of the form that was asked for.
    NotNarrative,
}

/// The members as a map of texts; the last of a name counts.
pub open spec fn text_members(ms: Seq<(Seq<char>, JsonView)>) -> Option<
    Map<Seq<char>, Seq<char>>,
>
    decreases ms.len(),
{
    if ms.len() == 0 {
        Some(Map::empty())
    } else {
        match (text_members(ms.drop_last()), ms.last().1) {
            (Some(m), JsonView::Text(t)) => Some(m.insert(ms.last().0, t)),
            _ => None,
        }
    }
}

/// A narrative out of a value: the summary, and that of each cluster.
pub open spec fn narrative_in(v: JsonView) -> Option<(Seq<char>, Map<Seq<char>, Seq<char>>)> {
    match (v, v.at("architecture_summary"@).text()) {
        (JsonView::Object(ms), Some(s)) => match json::member_at(ms, "cluster_summaries"@) {
            None => Some((s, Map::empty())),
            Some(JsonView::Object(cs)) => match text_members(cs) {
                Some(m) => Some((s, m)),
                None => None,
            },
            Some(_) => None,
        },
        _ => None,
    }
}

pub open spec fn narrative_text(text: Seq<char>) -> Seq<char> {
    unfenced(text::trim(text))
}

fn read_members(ms: &Vec<(String, Json)>) -> (r: Option<NameMap<String>>)
    ensures
        match r {
            Some(m) => text_members(
                Seq::new(ms@.len(), |i: int| (ms@[i].0@, ms@[i].1@)),
            ) == Some(pie::text_map(m@)),
            None => text_members(Seq::new(ms@.len(), |i: int| (ms@[i].0@, ms@[i].1@))) is None,
        },
{
    let ghost mv = Seq::new(ms@.len(), |i: int| (ms@[i].0@, ms@[i].1@));
    let mut out: NameMap<String> = NameMap::new();
    let mut i: usize = 0;
    assert(mv.take(0) =~= Seq::<(Seq<char>, JsonView)>::empty());
    assert(pie::text_map(out@) =~= Map::<Seq<char>, Seq<char>>::empty());
    while i < ms.len()
        invariant
            i <= ms.len(),
            mv == Seq::new(ms@.len(), |i: int| (ms@[i].0@, ms@[i].1@)),
            text_members(mv.take(i as int)) == Some(pie::text_map(out@)),
        decreases ms.len() - i,
    {
        assert(mv.take(i + 1).drop_last() =~= mv.take(i as int));
        assert(mv.take(i + 1).last() == (ms@[i as int].0@, ms@[i as int].1@));
        match &ms[i].1 {
            Json::Text(t) => {
                let ghost before = pie::text_map(out@);
                out.insert(ms[i].0.clone(), t.clone());
                assert(pie::text_map(out@) =~= before.insert(ms@[i as int].0@, t@));
            },
            _ => {
                proof {
                    members_stop(mv, i + 1);
                }
                return None;
            },
        }
        i += 1;
    }
    assert(mv.take(i as int) =~= mv);
    Some(out)
}

proof fn members_stop(ms: Seq<(Seq<char>, JsonView)>, n: int)
    requires
        0 <= n <= ms.len(),
        text_members(ms.take(n)) is None,
    ensures
        text_members(ms) is None,
    decreases ms.len() - n,
{
    if n < ms.len() {
        assert(ms.take(n + 1).drop_last() =~= ms.take(n));
        members_stop(ms, n + 1);
    } else {
        assert(ms.take(n) =~= ms);
    }
}

/// The narrative that a value holds.
pub fn narrative_of(v: &Json) -> (r: Option<(String, NameMap<String>)>)
    ensures
        match r {
            Some((s, m)) => narrative_in(v@) == Some((s@, pie::text_map(m@))),
            None => narrative_in(v@) is None,
        },
{
    match v {
        Json::Object(_) => {},
        _ => {
            return None;
        },
    }
    match v.text_of("architecture_summary") {
        Some(s) => match v.get("cluster_summaries") {
            None => {
                let m: NameMap<String> = NameMap::new();
                assert(pie::text_map(m@) =~= Map::<Seq<char>, Seq<char>>::empty());
                Some((s, m))
            },
            Some(Json::Object(cs)) => {
                let ghost cv = Seq::new(cs@.len(), |i: int| (cs@[i].0@, cs@[i].1@));
                assert(Json::Object(*cs)@ == JsonView::Object(cv)) by {
                    assert(Json::Object(*cs)@->Object_0 =~= cv);
                }
                match read_members(cs) {
                    Some(m) => Some((s, m)),
                    None => None,
                }
            },
            Some(_) => None,
        },
        None => None,
    }
}

/// The narrative in a model's answer: the summary, and that of each cluster.
pub fn parse_narrative_response(text: &str) -> (r: Result<
    (String, NameMap<String>),
    NarrativeError,
>)
    ensures
        match text::find(narrative_text(text@), "{"@) {
            None => r == Err::<(String, NameMap<String>), NarrativeError>(NarrativeError::NoObject),
            Some(i) => match json::json_read(narrative_text(text@).skip(i)) {
                Ok(v) => match (r, narrative_in(v)) {
                    (Ok((s, m)), Some(n)) => n == (s@, pie::text_map(m@)),
                    (Err(e), None) => e == NarrativeError::NotNarrative,
                    _ => false,
                },
                Err(_) => r == Err::<(String, NameMap<String>), NarrativeError>(
                    NarrativeError::NotNarrative,
                ),
            },
        },
{
    let t = strip_markdown_fences(trimmed(text).as_str());
    match find_str(t.as_str(), "{") {
        None => Err(NarrativeError::NoObject),
        Some(i) => match parse_json(without_first(t.as_str(), i).as_str()) {
            Ok(v) => match narrative_of(&v) {
                Some(n) => Ok(n),
                None => Err(NarrativeError::NotNarrative),
            },
            Err(_) => Err(NarrativeError::NotNarrative),
        },
    }
}

/// Each item stands on a line of its own behind a dash, in its order.
pub proof fn items_are_listed(items: Seq<Seq<char>>)
    requires
        forall|k: int|
            0 <= k < items.len() ==> !(#[trigger] items[k]).contains('\n') && items[k].len() > 0
                && items[k].last() != '\r',
    ensures
        pieces::lines(dashed(items)) == items.map_values(|f: Seq<char>| "- "@ + f),
        items.len() > 0 ==> dashed(items).len() > 0 && dashed(items).last() == '\n',
    decreases items.len(),
{
    reveal_strlit("- ");
    reveal_strlit("\n");
    let show = |f: Seq<char>| "- "@ + f;
    if items.len() > 0 {
        let t = items.drop_last();
        let f = items.last();
        assert forall|k: int| 0 <= k < t.len() implies !(#[trigger] t[k]).contains('\n') && t[k].len()
            > 0 && t[k].last() != '\r' by {
            assert(t[k] == items[k]);
        }
        assert(items[items.len() - 1] == f);
        items_are_listed(t);
        let line = "- "@ + f;
        if line.contains('\n') {
            let i = line.index_of('\n');
            if i >= 2 {
                assert(f[i - 2] == '\n');
            }
        }
        assert(line.last() == f.last());
        let none = Seq::<char>::empty();
        pieces::line_ends_are_dropped(line, none);
        let b = line + "\n"@;
        assert(b + none =~= b);
        assert(pieces::lines(b) =~= seq![line]);
        pieces::lines_apart(dashed(t), b);
        assert(dashed(items) =~= dashed(t) + b);
        assert(items.map_values(show) =~= t.map_values(show).push(line));
    } else {
        assert(pieces::lines(dashed(items)) =~= Seq::empty());
        assert(items.map_values(show) =~= Seq::empty());
    }
}

/// The clusters that are picked are those whose name is among the names, or
/// those whose name is not; symbols are counted by their kind.
pub proof fn picked_go_by_name(
    cs: Seq<Cluster>,
    names: Seq<Seq<char>>,
    symbols: Seq<Symbol>,
    kind: SymbolKind,
)
    ensures
        picked(cs, names, true) == cs.filter(|c: Cluster| names.contains(c.name@)),
        picked(cs, names, false) == cs.filter(|c: Cluster| !names.contains(c.name@)),
        of_kind(symbols, kind) == symbols.filter(|s: Symbol| s.kind == kind).len(),
    decreases cs.len() + symbols.len(),
{
    reveal(Seq::filter);
    if cs.len() > 0 {
        picked_go_by_name(cs.drop_last(), names, symbols, kind);
    } else if symbols.len() > 0 {
        picked_go_by_name(cs, names, symbols.drop_last(), kind);
    }
}

/// A fence around an answer is taken off.
pub proof fn fence_is_taken_off(body: Seq<char>)
    requires
        body.len() > 0,
        !text::is_white(body[0]) && body[0] != '`',
        !text::is_white(body.last()) && body.last() != '`',
    ensures
        unfenced("```json\n"@ + body + "\n```"@) == body,
        unfenced("```\n"@ + body + "\n```"@) == body,
        unfenced(body) == body,
{
    reveal_strlit("```json\n");
    reveal_strlit("```json");
    reveal_strlit("```\n");
    reveal_strlit("```");
    reveal_strlit("\n```");
    reveal_strlit("\n");
    let j = "```json"@;
    let f = "```"@;
    let core = "\n"@ + body + "\n```"@;
    let s = "```json\n"@ + body + "\n```"@;
    assert(s =~= j + core);
    assert(s.subrange(0, 7) =~= j);
    assert(s.skip(7) =~= core);
    not_fenced(core, j);
    not_fenced(core, f);
    reveal_with_fuel(pieces::trim_start_text, 3);
    assert(pieces::trim_start_text(s, j) == core);
    let u = "```\n"@ + body + "\n```"@;
    assert(u =~= f + core);
    assert(u[3] == '\n' && j[3] == 'j');
    if text::begins(u, j) {
        assert(u.subrange(0, 7)[3] == u[3]);
    }
    assert(u.subrange(0, 3) =~= f);
    assert(u.skip(3) =~= core);
    assert(pieces::trim_start_text(u, j) == u);
    assert(pieces::trim_start_text(u, f) == core);
    text::lead_bound(core, CharSet::White, true);
    assert(core[0] == '\n' && core[1] == body[0]);
    assert(text::lead(core, CharSet::White, true) == 1);
    let tail = body + "\n```"@;
    assert(core.skip(1) =~= tail);
    let n = tail.len() as int;
    assert(tail.subrange(n - 3, n) =~= f);
    let mid = body + "\n"@;
    assert(tail.take(n - 3) =~= mid);
    if text::ends(mid, f) {
        let m = mid.len() as int;
        assert(mid.subrange(m - 3, m)[2] == mid[m - 1]);
    }
    reveal_with_fuel(pieces::trim_end_text, 3);
    assert(pieces::trim_end_text(tail, f) == mid);
    text::trail_bound(mid, CharSet::White);
    assert(mid[mid.len() - 1] == '\n' && mid[mid.len() - 2] == body.last());
    assert(text::trail(mid, CharSet::White) == 1) by {
        if text::trail(mid, CharSet::White) == 0 {
            assert(!text::in_set(CharSet::White, mid[mid.len() - 1]));
        }
        if text::trail(mid, CharSet::White) > 1 {
            assert(text::in_set(CharSet::White, mid[mid.len() - 2]));
        }
    }
    assert(mid.take(mid.len() - 1) =~= body);
    not_fenced(body, j);
    not_fenced(body, f);
    text::lead_bound(body, CharSet::White, true);
    assert(text::lead(body, CharSet::White, true) == 0);
    assert(body.skip(0) =~= body);
    if text::ends(body, f) {
        let m = body.len() as int;
        assert(body.subrange(m - 3, m)[2] == body[m - 1]);
    }
    assert(body.take(body.len() as int) =~= body);
    assert(text::trail(body, CharSet::White) == 0);
}

proof fn not_fenced(s: Seq<char>, p: Seq<char>)
    requires
        s.len() > 0,
        s[0] != '`',
        p.len() > 0,
        p[0] == '`',
    ensures
        !text::begins(s, p),
        pieces::trim_start_text(s, p) == s,
{
    if text::begins(s, p) {
        assert(s.subrange(0, p.len() as int)[0] == s[0]);
    }
}

/// Where every member is a text, each is known by its key, the last of one
/// key; where one is not, nothing is.
pub proof fn members_are_texts(ms: Seq<(Seq<char>, JsonView)>)
    ensures
        text_members(ms) is Some <==> forall|i: int| 0 <= i < ms.len() ==> (#[trigger] ms[i]).1 is Text,
        text_members(ms) matches Some(m) ==> forall|i: int|
            0 <= i < ms.len() && (forall|k: int| i < k < ms.len() ==> (#[trigger] ms[k]).0 != ms[i].0)
                ==> m.dom().contains((#[trigger] ms[i]).0) && JsonView::Text(m[ms[i].0]) == ms[i].1,
        text_members(ms) matches Some(m) ==> forall|k: Seq<char>| #[trigger]
            m.dom().contains(k) ==> exists|i: int| 0 <= i < ms.len() && (#[trigger] ms[i]).0 == k,
    decreases ms.len(),
{
    if ms.len() > 0 {
        let t = ms.drop_last();
        let n = ms.len() - 1;
        members_are_texts(t);
        assert(forall|i: int| 0 <= i < n ==> #[trigger] ms[i] == t[i]);
        if text_members(t) is None {
            let i = choose|i: int| 0 <= i < t.len() && !((#[trigger] t[i]).1 is Text);
            assert(!(ms[i].1 is Text));
        }
        if let Some(m) = text_members(ms) {
            let before = text_members(t)->0;
            assert(ms[n].1 is Text);
            assert forall|i: int|
                0 <= i < ms.len() && (forall|k: int|
                    i < k < ms.len() ==> (#[trigger] ms[k]).0 != ms[i].0) implies m.dom().contains(
                (#[trigger] ms[i]).0,
            ) && JsonView::Text(m[ms[i].0]) == ms[i].1 by {
                if i < n {
                    assert(ms[n].0 != ms[i].0);
                    assert forall|k: int| i < k < t.len() implies (#[trigger] t[k]).0 != t[i].0 by {
                        assert(ms[k].0 != ms[i].0);
                    }
                    assert(t[i] == ms[i]);
                    assert(before.dom().contains(t[i].0));
                }
            }
            assert forall|k: Seq<char>| #[trigger] m.dom().contains(k) implies exists|i: int|
                0 <= i < ms.len() && (#[trigger] ms[i]).0 == k by {
                if before.dom().contains(k) {
                    let i = choose|i: int| 0 <= i < t.len() && (#[trigger] t[i]).0 == k;
                    assert(ms[i].0 == k);
                } else {
                    assert(ms[n].0 == k);
                }
            }
        }
    }
}

/// Fifteen words of a summary are told, and more are hinted at.
pub proof fn fifteen_words_are_told(s: Seq<char>)
    ensures
        pieces::words(s).len() <= 15 ==> fifteen_words(s) == s,
        pieces::words(s).len() > 15 ==> fifteen_words(s) == pieces::join(
            pieces::words(s).subrange(0, 15),
            " "@,
        ) + " …"@,
{
}

/// The name is that of the first line that gives one.
pub proof fn first_name_counts(ls: Seq<Seq<char>>, i: int)
    requires
        0 <= i <= ls.len(),
        forall|k: int| 0 <= k < i ==> name_in_line(#[trigger] ls[k]) is None,
    ensures
        i == ls.len() ==> name_in_lines(ls) is None,
        i < ls.len() && name_in_line(ls[i]) is Some ==> name_in_lines(ls) == name_in_line(ls[i]),
    decreases ls.len(),
{
    if i > 0 {
        let t = ls.skip(1);
        assert forall|k: int| 0 <= k < i - 1 implies name_in_line(#[trigger] t[k]) is None by {
            assert(t[k] == ls[k + 1]);
        }
        first_name_counts(t, i - 1);
        assert(name_in_line(ls[0]) is None);
        if i < ls.len() {
            assert(t[i - 1] == ls[i]);
        }
    }
}

/// A narrative needs a summary of the architecture; the summaries of clusters
/// may be missing, but what is there has to be text.
pub proof fn narrative_needs_its_summary(v: JsonView, s: Seq<char>, cs: Seq<(Seq<char>, JsonView)>)
    ensures
        !(v.at("architecture_summary"@) is Text) ==> narrative_in(v) is None,
        v.at("architecture_summary"@) == JsonView::Text(s) && v.at("cluster_summaries"@)
            == JsonView::Object(cs) ==> (narrative_in(v) matches Some(n) ==> n.0 == s && Some(n.1)
            == text_members(cs)) && (narrative_in(v) is Some <==> text_members(cs) is Some),
{
    if let JsonView::Object(ms) = v {
        if let Some(x) = json::member_at(ms, "cluster_summaries"@) {
            assert(v.at("cluster_summaries"@) == x);
        }
    }
}

/// Clusters are told of one behind the other: each by its name, the number of
/// its files and its summary, with all that it holds or on one line.
pub proof fn clusters_are_told_in_turn(
    m: Map<Seq<char>, String>,
    g: ProjectGraph,
    cs: Seq<Cluster>,
    c: Cluster,
)
    ensures
        cluster_details(m, g, Seq::empty()) == Seq::<char>::empty(),
        cluster_briefs(m, Seq::empty()) == Seq::<char>::empty(),
        code_texts(g, Seq::empty()) == Seq::<char>::empty(),
        ({
            let files = number::decimal(c.files@.len());
            let said = if m.dom().contains(c.name@) {
                m[c.name@]@ + "\n"@
            } else {
                Seq::empty()
            };
            let short = if m.dom().contains(c.name@) {
                " files) — "@ + fifteen_words(m[c.name@]@) + "\n"@
            } else {
                " files)\n"@
            };
            &&& cluster_details(m, g, cs.push(c)) == cluster_details(m, g, cs) + ("\n### "@ + c.name@
                + " ("@ + files + " files)\n"@ + said + pie::cluster_body(g, c))
            &&& cluster_briefs(m, cs.push(c)) == cluster_briefs(m, cs) + ("### "@ + c.name@ + " ("@
                + files + short)
            &&& code_texts(g, cs.push(c)) == code_texts(g, cs) + ("\n## "@ + c.name@ + " ("@ + files
                + " files)\n"@ + pie::cluster_body(g, c))
        }),
{
    assert(cs.push(c).drop_last() == cs);
    assert(cs.push(c).last() == c);
}

} // verus!
