//! Call chains, worked out ahead of time, that tell what a project does.

use crate::clock::now;
use crate::index;
use crate::index::{CallEdge, Symbol, SymbolKind};
use crate::names::NameMap;
use crate::number;
use crate::number::{byte_len, decimal_usize, padded_left};
use crate::order;
use crate::order::{sort_by, sort_texts};
use crate::paths;
use crate::paths::stem_of;
use crate::pie;
use crate::pie::ProjectGraph;
use crate::pieces;
use crate::pieces::{join_with, lines_of, replaced, split_at_text, words_of};
use crate::text;
use crate::text::{begins_with, listed, one_of, same, to_chars};
use vstd::prelude::*;

verus! {

broadcast use crate::text::views_push;

/// A symbol with this many callers is a utility and is not followed.
pub const UTILITY_THRESHOLD: usize = 6;

/// A name defined in this many files is not followed.
pub const MAX_AMBIGUITY: usize = 4;

/// A chain has no more steps than this.
pub const MAX_PATH_STEPS: usize = 18;

/// Shorter chains are dropped.
pub const MIN_PATH_STEPS: usize = 2;

/// A symbol with one caller begins a chain if it makes this many calls.
pub const SECONDARY_ENTRY_MIN_OUT: usize = 4;

/// A call chain.
#[derive(Debug)]
pub struct FlowPath {
    /// Made of the names of the first and the last symbol.
    pub id: String,
    /// The first and the last symbol, to be read.
    pub name: String,
    /// Where the chain begins, as `file::symbol`.
    pub entry_key: String,
    /// What is reached from there, nearest first, as `file::symbol`.
    pub steps: Vec<String>,
    /// Words of the symbols' names.
    pub keywords: Vec<String>,
}

/// How a task fits the chains.
#[derive(Debug)]
pub enum PathMatch {
    /// One chain fits much better than the others.
    Clear(usize),
    /// Two or three fit about as well.
    Ambiguous(Vec<usize>),
    /// None fits.
    Unmatched,
}

/// The chains of a project.
#[derive(Debug)]
pub struct FlowPathIndex {
    pub paths: Vec<FlowPath>,
    /// When the chains were worked out, in Unix time.
    pub built_at: i64,
}

impl Default for FlowPathIndex {
    fn default() -> (r: Self)
        ensures
            r.paths@ == Seq::<FlowPath>::empty(),
            r.built_at == 0,
    {
        FlowPathIndex { paths: Vec::new(), built_at: 0 }
    }
}

/// What a `FlowPath` says.
#[verifier::ext_equal]
pub struct PathView {
    pub id: Seq<char>,
    pub name: Seq<char>,
    pub entry_key: Seq<char>,
    pub steps: Seq<Seq<char>>,
    pub keywords: Seq<Seq<char>>,
}

impl View for FlowPath {
    type V = PathView;

    open spec fn view(&self) -> PathView {
        PathView {
            id: self.id@,
            name: self.name@,
            entry_key: self.entry_key@,
            steps: text::views(self.steps@),
            keywords: text::views(self.keywords@),
        }
    }
}

pub open spec fn path_views(v: Seq<FlowPath>) -> Seq<PathView> {
    Seq::new(v.len(), |i: int| v[i]@)
}

impl FlowPath {
    /// All symbols of the chain, the first one first.
    pub fn all_keys(&self) -> (r: Vec<String>)
        ensures
            text::views(r@) == seq![self.entry_key@] + text::views(self.steps@),
    {
        let mut out: Vec<String> = Vec::new();
        out.push(self.entry_key.clone());
        let ghost goal = seq![self.entry_key@] + text::views(self.steps@);
        let mut i: usize = 0;
        while i < self.steps.len()
            invariant
                i <= self.steps.len(),
                out.len() == i + 1,
                goal == seq![self.entry_key@] + text::views(self.steps@),
                forall|k: int| 0 <= k <= i ==> (#[trigger] out@[k])@ == goal[k],
            decreases self.steps.len() - i,
        {
            out.push(self.steps[i].clone());
            i += 1;
        }
        assert(text::views(out@) =~= goal);
        out
    }
}

// ── Words of names ───────────────────────────────────────────────────────────

pub open spec fn separator(c: char) -> bool {
    c == '_' || c == '-' || c == '.'
}

/// A word that has ended.
pub open spec fn ended(word: Seq<char>) -> Seq<Seq<char>> {
    if word.len() == 0 {
        Seq::empty()
    } else {
        seq![text::lowercase(word)]
    }
}

/// A letter that is not a capital.
pub open spec fn small_letter(c: char) -> bool {
    text::alphabetic(c) && !text::uppercase(c)
}

/// Whether a capital begins a word behind `word`: not among the capitals of
/// an acronym, unless a small letter follows.
pub open spec fn begins_word(s: Seq<char>, word: Seq<char>) -> bool {
    &&& text::uppercase(s[0])
    &&& word.len() > 0
    &&& text::uppercase(word.last()) ==> s.len() > 1 && small_letter(s[1])
}

/// The words of a name, of which `word` has been read: separators end a
/// word, a capital begins one, and other marks are dropped.
pub open spec fn name_words(s: Seq<char>, word: Seq<char>) -> Seq<Seq<char>>
    decreases s.len(),
{
    if s.len() == 0 {
        ended(word)
    } else if separator(s[0]) {
        ended(word) + name_words(s.skip(1), Seq::empty())
    } else if begins_word(s, word) {
        ended(word) + name_words(s.skip(1), seq![s[0]])
    } else if text::alphanumeric(s[0]) {
        name_words(s.skip(1), word.push(s[0]))
    } else {
        name_words(s.skip(1), word)
    }
}

fn push_word(words: &mut Vec<String>, word: &String)
    ensures
        text::views(final(words)@) == text::views(old(words)@) + ended(word@),
{
    let ghost before = text::views(words@);
    if !word.as_str().is_empty() {
        words.push(word.as_str().to_lowercase());
    }
    assert(text::views(words@) =~= before + ended(word@));
}

/// The words of a name written with underscores or capitals, in lower case.
pub fn split_identifier(name: &str) -> (r: Vec<String>)
    ensures
        text::views(r@) == name_words(name@, Seq::empty()),
{
    let v = to_chars(name);
    let mut words: Vec<String> = Vec::new();
    let mut current = String::new();
    let mut capital = false;
    let mut i: usize = 0;
    let ghost goal = name_words(name@, Seq::empty());
    proof {
        text::views_empty();
        assert(v@.skip(0) =~= v@);
        assert(text::views(words@) + goal =~= goal);
    }
    while i < v.len()
        invariant
            i <= v.len(),
            text::views(words@) + name_words(v@.skip(i as int), current@) == goal,
            current@.len() > 0 ==> capital == text::uppercase(current@.last()),
        decreases v.len() - i,
    {
        let ghost rest = v@.skip(i as int);
        let ghost before = text::views(words@);
        let ghost was = name_words(rest, current@);
        let c = v[i];
        assert(rest[0] == c);
        assert(rest.skip(1) =~= v@.skip(i + 1));
        if c == '_' || c == '-' || c == '.' {
            push_word(&mut words, &current);
            current = String::new();
        } else {
            let upper = c.is_uppercase();
            let small_next = i + 1 < v.len() && v[i + 1].is_alphabetic() && !v[i + 1].is_uppercase();
            if upper && !current.as_str().is_empty() && (!capital || small_next) {
                push_word(&mut words, &current);
                current = String::new();
                current.push(c);
                capital = upper;
                assert(current@ =~= seq![c]);
            } else if c.is_alphanumeric() {
                current.push(c);
                capital = upper;
            }
        }
        assert(text::views(words@) + name_words(v@.skip(i + 1), current@) =~= before + was);
        i += 1;
    }
    assert(v@.skip(i as int) =~= Seq::<char>::empty());
    push_word(&mut words, &current);
    words
}

proof fn word_goes_on(w: Seq<char>, rest: Seq<char>, word: Seq<char>)
    requires
        forall|i: int|
            0 <= i < w.len() ==> text::alphanumeric(#[trigger] w[i]) && !text::uppercase(w[i])
                && !separator(w[i]),
    ensures
        name_words(w + rest, word) == name_words(rest, word + w),
    decreases w.len(),
{
    if w.len() == 0 {
        assert(w + rest =~= rest);
        assert(word + w =~= word);
    } else {
        let s = w + rest;
        assert(s[0] == w[0]);
        assert(s.skip(1) =~= w.skip(1) + rest);
        word_goes_on(w.skip(1), rest, word.push(w[0]));
        assert(word.push(w[0]) + w.skip(1) =~= word + w);
    }
}

/// A name of small letters and digits is one word. A separator parts words,
/// and so does a capital that a small letter follows.
pub proof fn names_part_into_words(w: Seq<char>, sep: char, rest: Seq<char>)
    requires
        w.len() > 0,
        forall|i: int|
            0 <= i < w.len() ==> text::alphanumeric(#[trigger] w[i]) && !text::uppercase(w[i]) && w[i]
                != '_' && w[i] != '-' && w[i] != '.',
    ensures
        name_words(w, Seq::empty()) == seq![text::lowercase(w)],
        sep == '_' || sep == '-' || sep == '.' ==> name_words(w + seq![sep] + rest, Seq::empty())
            == seq![text::lowercase(w)] + name_words(rest, Seq::empty()),
        rest.len() > 1 && text::uppercase(rest[0]) && text::alphanumeric(rest[0]) && rest[0] != '_'
            && rest[0] != '-' && rest[0] != '.' ==> name_words(w + rest, Seq::empty())
            == seq![text::lowercase(w)] + name_words(rest, Seq::empty()),
{
    let none = Seq::<char>::empty();
    assert(none + w =~= w);
    assert(w + none =~= w);
    word_goes_on(w, none, none);
    assert(name_words(none, w) == ended(w));
    let tail = seq![sep] + rest;
    assert(w + seq![sep] + rest =~= w + tail);
    word_goes_on(w, tail, none);
    assert(tail.skip(1) =~= rest);
    word_goes_on(w, rest, none);
    if rest.len() > 1 {
        assert(!text::uppercase(w[w.len() - 1]));
        assert(name_words(rest, none) == name_words(rest.skip(1), none.push(rest[0])) || separator(
            rest[0],
        ) || !text::alphanumeric(rest[0]));
        assert(none.push(rest[0]) =~= seq![rest[0]]);
    }
}

/// The name at the end of a key.
pub open spec fn symbol_of(key: Seq<char>) -> Seq<char> {
    pieces::split_text(key, "::"@).last()
}

/// The file at the front of a key.
pub open spec fn file_of(key: Seq<char>) -> Seq<char> {
    pieces::split_text(key, "::"@)[0]
}

pub fn sym_name(key: &str) -> (r: String)
    ensures
        r@ == symbol_of(key@),
{
    proof {
        reveal_strlit("::");
    }
    let parts = split_at_text(key, "::");
    let n: usize = parts.len() - 1;
    assert(text::views(parts@)[n as int] == parts@[n as int]@);
    parts[n].clone()
}

fn file_name(key: &str) -> (r: String)
    ensures
        r@ == file_of(key@),
{
    proof {
        reveal_strlit("::");
    }
    let parts = split_at_text(key, "::");
    assert(text::views(parts@)[0] == parts@[0]@);
    parts[0].clone()
}

/// A key gives back the file and the name that it was made of.
pub proof fn key_parts(file: Seq<char>, name: Seq<char>)
    requires
        !file.contains(':'),
        !name.contains(':'),
    ensures
        file_of(key_of(file, name)) == file,
        symbol_of(key_of(file, name)) == name,
{
    reveal_strlit("::");
    let c = "::"@;
    let k = file + c + name;
    text::found_behind(file, c, name);
    text::found_nowhere(name, c);
    assert(pieces::split_text(name, c) =~= seq![name]);
    assert(pieces::split_text(k, c) =~= seq![file, name]);
}

/// The items of a list, each once, in the order they first come.
pub open spec fn distinct(s: Seq<Seq<char>>) -> Seq<Seq<char>>
    decreases s.len(),
{
    if s.len() == 0 {
        s
    } else {
        pie::with_new(distinct(s.drop_last()), s.last())
    }
}

pub proof fn distinct_is_distinct(s: Seq<Seq<char>>)
    ensures
        distinct(s).no_duplicates(),
        distinct(s).len() <= s.len(),
        forall|x: Seq<char>| #[trigger] distinct(s).contains(x) == s.contains(x),
    decreases s.len(),
{
    if s.len() > 0 {
        let t = s.drop_last();
        distinct_is_distinct(t);
        let d = distinct(t);
        assert forall|x: Seq<char>| #[trigger] distinct(s).contains(x) == s.contains(x) by {
            assert(d.contains(x) == t.contains(x));
            if s.contains(x) {
                let i = choose|i: int| 0 <= i < s.len() && s[i] == x;
                if i < t.len() {
                    assert(t[i] == x);
                }
            }
            if t.contains(x) {
                let i = choose|i: int| 0 <= i < t.len() && t[i] == x;
                assert(s[i] == x);
            }
            if x == s.last() {
                assert(s[s.len() - 1] == x);
            }
            if !d.contains(s.last()) {
                let p = d.push(s.last());
                if d.contains(x) {
                    let i = choose|i: int| 0 <= i < d.len() && d[i] == x;
                    assert(p[i] == x);
                }
                if x == s.last() {
                    assert(p[d.len() as int] == x);
                }
                if p.contains(x) {
                    let i = choose|i: int| 0 <= i < p.len() && p[i] == x;
                    if i < d.len() {
                        assert(d[i] == x);
                    }
                }
            }
        }
    }
}

fn distinct_of(v: &Vec<String>) -> (r: Vec<String>)
    ensures
        text::views(r@) == distinct(text::views(v@)),
{
    let ghost all = text::views(v@);
    let mut out: Vec<String> = Vec::new();
    let mut i: usize = 0;
    assert(all.take(0) =~= Seq::<Seq<char>>::empty());
    assert(text::views(out@) =~= all.take(0));
    while i < v.len()
        invariant
            i <= v.len(),
            all == text::views(v@),
            text::views(out@) == distinct(all.take(i as int)),
        decreases v.len() - i,
    {
        assert(all.take(i + 1).drop_last() =~= all.take(i as int));
        assert(all.take(i + 1).last() == v@[i as int]@);
        if !listed(v[i].as_str(), &out) {
            out.push(v[i].clone());
        }
        i += 1;
    }
    assert(all.take(i as int) =~= all);
    out
}

pub open spec fn common_words() -> Seq<Seq<char>> {
    seq![
        "get"@,
        "set"@,
        "new"@,
        "run"@,
        "load"@,
        "save"@,
        "from"@,
        "into"@,
        "with"@,
        "make"@,
        "init"@,
        "the"@,
        "and"@,
        "for"@,
        "pub"@,
        "mut"@,
        "str"@,
        "use"@,
        "add"@,
        "all"@,
        "has"@,
        "not"@,
        "try"@,
        "via"@,
        "out"@,
        "map"@,
        "fmt"@,
    ]
}

/// Whether a word tells something.
pub open spec fn telling(w: Seq<char>) -> bool {
    number::width(w) >= 3 && !common_words().contains(w)
}

fn is_telling(w: &str) -> (r: bool)
    ensures
        r == telling(w@),
{
    let common = [
        "get",
        "set",
        "new",
        "run",
        "load",
        "save",
        "from",
        "into",
        "with",
        "make",
        "init",
        "the",
        "and",
        "for",
        "pub",
        "mut",
        "str",
        "use",
        "add",
        "all",
        "has",
        "not",
        "try",
        "via",
        "out",
        "map",
        "fmt",
    ];
    assert(text::texts(common@) =~= common_words());
    byte_len(w) >= 3 && !one_of(w, &common)
}

/// The telling words of a list.
pub open spec fn telling_words(ws: Seq<Seq<char>>) -> Seq<Seq<char>>
    decreases ws.len(),
{
    if ws.len() == 0 {
        Seq::empty()
    } else if telling(ws.last()) {
        telling_words(ws.drop_last()).push(ws.last())
    } else {
        telling_words(ws.drop_last())
    }
}

/// The telling words are those of three bytes and more that are not common.
pub proof fn telling_words_are_rare(ws: Seq<Seq<char>>)
    ensures
        telling_words(ws) == ws.filter(
            |w: Seq<char>| number::width(w) >= 3 && !common_words().contains(w),
        ),
    decreases ws.len(),
{
    reveal(Seq::filter);
    if ws.len() > 0 {
        telling_words_are_rare(ws.drop_last());
    }
}

/// The telling words of the symbols that keys name.
pub open spec fn key_words(keys: Seq<Seq<char>>) -> Seq<Seq<char>>
    decreases keys.len(),
{
    if keys.len() == 0 {
        Seq::empty()
    } else {
        key_words(keys.drop_last()) + telling_words(
            name_words(symbol_of(keys.last()), Seq::empty()),
        )
    }
}

/// The words of a chain, each once, in order.
pub open spec fn chain_words(entry: Seq<char>, steps: Seq<Seq<char>>) -> Seq<Seq<char>> {
    order::sorted_by(distinct(key_words(seq![entry] + steps)), order::by_chars())
}

fn add_telling(words: &mut Vec<String>, key: &str)
    ensures
        text::views(final(words)@) == text::views(old(words)@) + telling_words(
            name_words(symbol_of(key@), Seq::empty()),
        ),
{
    let name = sym_name(key);
    let ws = split_identifier(name.as_str());
    let ghost all = text::views(ws@);
    let ghost start = text::views(words@);
    let mut i: usize = 0;
    assert(all.take(0) =~= Seq::<Seq<char>>::empty());
    assert(start + telling_words(all.take(0)) =~= start);
    while i < ws.len()
        invariant
            i <= ws.len(),
            all == text::views(ws@),
            text::views(words@) == start + telling_words(all.take(i as int)),
        decreases ws.len() - i,
    {
        assert(all.take(i + 1).drop_last() =~= all.take(i as int));
        assert(all.take(i + 1).last() == ws@[i as int]@);
        if is_telling(ws[i].as_str()) {
            let ghost before = text::views(words@);
            words.push(ws[i].clone());
            assert(text::views(words@) =~= start + telling_words(all.take(i + 1)));
        }
        i += 1;
    }
    assert(all.take(i as int) =~= all);
}

/// The words of a chain's symbols.
pub fn extract_keywords(entry_key: &str, steps: &Vec<String>) -> (r: Vec<String>)
    ensures
        text::views(r@) == chain_words(entry_key@, text::views(steps@)),
{
    let ghost ss = text::views(steps@);
    let ghost keys = seq![entry_key@] + ss;
    let mut words: Vec<String> = Vec::new();
    proof {
        text::views_empty();
        assert(keys.take(0) =~= Seq::<Seq<char>>::empty());
        assert(keys.take(1).drop_last() =~= keys.take(0));
    }
    add_telling(&mut words, entry_key);
    assert(keys.take(1).last() == entry_key@);
    assert(key_words(keys.take(0)) == Seq::<Seq<char>>::empty());
    assert(text::views(words@) =~= key_words(keys.take(1)));
    let mut i: usize = 0;
    while i < steps.len()
        invariant
            i <= steps.len(),
            ss == text::views(steps@),
            keys == seq![entry_key@] + ss,
            text::views(words@) == key_words(keys.take(i + 1)),
        decreases steps.len() - i,
    {
        assert(keys.take(i + 2).drop_last() =~= keys.take(i + 1));
        assert(keys.take(i + 2).last() == steps@[i as int]@);
        add_telling(&mut words, steps[i].as_str());
        i += 1;
    }
    assert(keys.take(i + 1) =~= keys);
    let mut out = distinct_of(&words);
    proof {
        order::sorted_texts(out@);
    }
    sort_texts(&mut out);
    out
}

// ── Where chains begin ───────────────────────────────────────────────────────

pub open spec fn calls_to(edges: Seq<CallEdge>, callee: Seq<char>) -> bool {
    exists|i: int| 0 <= i < edges.len() && (#[trigger] edges[i]).callee@ == callee
}

/// How many of the first `n` callers call `callee`.
pub open spec fn callers_upto(
    names: Seq<Seq<char>>,
    m: Map<Seq<char>, Vec<CallEdge>>,
    callee: Seq<char>,
    n: int,
) -> nat
    decreases n,
{
    if n <= 0 {
        0
    } else {
        callers_upto(names, m, callee, n - 1) + if calls_to(m[names[n - 1]]@, callee) {
            1nat
        } else {
            0nat
        }
    }
}

/// How many symbols call `callee`.
pub open spec fn callers(g: ProjectGraph, callee: Seq<char>) -> nat {
    callers_upto(
        g.call_edges.names(),
        g.call_edges@,
        callee,
        g.call_edges.names().len() as int,
    )
}

fn has_call(edges: &Vec<CallEdge>, callee: &str) -> (r: bool)
    ensures
        r == calls_to(edges@, callee@),
{
    let mut i: usize = 0;
    while i < edges.len()
        invariant
            i <= edges.len(),
            forall|k: int| 0 <= k < i ==> (#[trigger] edges@[k]).callee@ != callee@,
        decreases edges.len() - i,
    {
        if same(edges[i].callee.as_str(), callee) {
            return true;
        }
        i += 1;
    }
    false
}

/// How many symbols call `callee`.
pub fn caller_count(graph: &ProjectGraph, callee: &str) -> (n: usize)
    ensures
        n == callers(*graph, callee@),
{
    let total: usize = graph.call_edges.len();
    let mut n: usize = 0;
    let mut i: usize = 0;
    while i < total
        invariant
            i <= total,
            n <= i,
            total == graph.call_edges.names().len(),
            n == callers_upto(graph.call_edges.names(), graph.call_edges@, callee@, i as int),
        decreases total - i,
    {
        if has_call(graph.call_edges.value_at(i), callee) {
            n += 1;
        }
        i += 1;
    }
    n
}

proof fn callers_counted(names: Seq<Seq<char>>, m: Map<Seq<char>, Vec<CallEdge>>, callee: Seq<char>, n: int)
    requires
        0 <= n <= names.len(),
    ensures
        callers_upto(names, m, callee, n) == names.take(n).filter(
            |k: Seq<char>|
                exists|i: int| 0 <= i < m[k]@.len() && (#[trigger] m[k]@[i]).callee@ == callee,
        ).len(),
    decreases n,
{
    reveal(Seq::filter);
    if n > 0 {
        callers_counted(names, m, callee, n - 1);
        assert(names.take(n).drop_last() =~= names.take(n - 1));
        assert(names.take(n).last() == names[n - 1]);
    } else {
        assert(names.take(0) =~= Seq::empty());
    }
}

/// A symbol has as many callers as there are symbols with a call of it.
pub proof fn callers_are_counted(g: ProjectGraph, callee: Seq<char>)
    ensures
        callers(g, callee) == g.call_edges.names().filter(
            |k: Seq<char>|
                exists|i: int|
                    0 <= i < g.call_edges@[k]@.len() && (#[trigger] g.call_edges@[k]@[i]).callee@
                        == callee,
        ).len(),
{
    let names = g.call_edges.names();
    callers_counted(names, g.call_edges@, callee, names.len() as int);
    assert(names.take(names.len() as int) =~= names);
}

pub open spec fn key_of(file: Seq<char>, name: Seq<char>) -> Seq<char> {
    file + "::"@ + name
}

pub fn make_key(file: &str, name: &str) -> (r: String)
    ensures
        r@ == key_of(file@, name@),
{
    let mut s = file.to_owned();
    s.append("::");
    s.append(name);
    s
}

/// How many calls a symbol makes.
pub open spec fn outgoing(g: ProjectGraph, key: Seq<char>) -> nat {
    if g.call_edges@.dom().contains(key) {
        g.call_edges@[key]@.len()
    } else {
        0
    }
}

/// Whether a symbol begins a chain: a function that nothing calls, or that
/// one calls and that makes many calls; no test.
pub open spec fn begins_chain(g: ProjectGraph, s: index::SymbolView) -> bool {
    &&& s.kind == SymbolKind::Function || s.kind == SymbolKind::Method
    &&& !text::begins(s.name, "test_"@) && !text::begins(s.name, "bench_"@)
    &&& callers(g, s.name) == 0 || (callers(g, s.name) <= 1 && outgoing(g, key_of(s.file, s.name))
        >= SECONDARY_ENTRY_MIN_OUT)
}

/// The keys of the symbols that begin chains, each once.
pub open spec fn entries(g: ProjectGraph, symbols: Seq<index::SymbolView>) -> Seq<Seq<char>>
    decreases symbols.len(),
{
    if symbols.len() == 0 {
        Seq::empty()
    } else {
        let e = entries(g, symbols.drop_last());
        let s = symbols.last();
        if begins_chain(g, s) {
            pie::with_new(e, key_of(s.file, s.name))
        } else {
            e
        }
    }
}

/// A chain begins at a function or a method that nothing calls, or that one
/// symbol calls and that makes four calls or more; tests and benchmarks begin
/// none. Each key stands once.
pub proof fn chains_begin_where_nothing_calls(
    g: ProjectGraph,
    symbols: Seq<index::SymbolView>,
    key: Seq<char>,
)
    ensures
        entries(g, symbols).no_duplicates(),
        entries(g, symbols).contains(key) <==> exists|i: int|
            {
                &&& 0 <= i < symbols.len()
                &&& key == (#[trigger] symbols[i]).file + "::"@ + symbols[i].name
                &&& symbols[i].kind == SymbolKind::Function || symbols[i].kind == SymbolKind::Method
                &&& !text::begins(symbols[i].name, "test_"@)
                &&& !text::begins(symbols[i].name, "bench_"@)
                &&& callers(g, symbols[i].name) == 0 || (callers(g, symbols[i].name) == 1
                    && g.call_edges@.dom().contains(key) && g.call_edges@[key]@.len() >= 4)
            },
    decreases symbols.len(),
{
    if symbols.len() > 0 {
        let t = symbols.drop_last();
        chains_begin_where_nothing_calls(g, t, key);
        let e = entries(g, t);
        let r = entries(g, symbols);
        let s = symbols.last();
        let begins = |q: Seq<index::SymbolView>, i: int|
            {
                &&& 0 <= i < q.len()
                &&& key == q[i].file + "::"@ + q[i].name
                &&& q[i].kind == SymbolKind::Function || q[i].kind == SymbolKind::Method
                &&& !text::begins(q[i].name, "test_"@)
                &&& !text::begins(q[i].name, "bench_"@)
                &&& callers(g, q[i].name) == 0 || (callers(g, q[i].name) == 1
                    && g.call_edges@.dom().contains(key) && g.call_edges@[key]@.len() >= 4)
            };
        let n = symbols.len() - 1;
        assert(symbols[n] == s);
        assert forall|i: int| 0 <= i < n implies symbols[i] == t[i] by {}
        let k = s.file + "::"@ + s.name;
        if e.contains(key) {
            let i = choose|i: int| #[trigger] t[i] == t[i] && begins(t, i);
            assert(symbols[i] == t[i]);
            let x = e.index_of(key);
            assert(r[x] == key);
        }
        if begins_chain(g, s) {
            if k == key {
                assert(begins(symbols, n));
                if !e.contains(k) {
                    assert(r[e.len() as int] == key);
                }
            }
        }
        if r.contains(key) && !e.contains(key) {
            let x = r.index_of(key);
            if x < e.len() {
                assert(e[x] == key);
            }
            assert(key == k);
            assert(begins(symbols, n));
        }
        if exists|i: int| #[trigger] symbols[i] == symbols[i] && begins(symbols, i) {
            let i = choose|i: int| #[trigger] symbols[i] == symbols[i] && begins(symbols, i);
            if i < n {
                assert(t[i] == symbols[i]);
                assert(begins(t, i));
            } else {
                assert(begins_chain(g, s));
            }
        }
    }
}

/// The keys of the symbols that begin chains.
pub fn find_entry_points(graph: &ProjectGraph) -> (r: Vec<String>)
    ensures
        text::views(r@) == entries(*graph, index::symbol_views(graph.symbols@)),
{
    let ghost sv = index::symbol_views(graph.symbols@);
    let mut out: Vec<String> = Vec::new();
    let mut i: usize = 0;
    proof {
        text::views_empty();
        assert(sv.take(0) =~= Seq::<index::SymbolView>::empty());
    }
    while i < graph.symbols.len()
        invariant
            i <= graph.symbols.len(),
            sv == index::symbol_views(graph.symbols@),
            text::views(out@) == entries(*graph, sv.take(i as int)),
        decreases graph.symbols.len() - i,
    {
        let s = &graph.symbols[i];
        proof {
            assert(sv.take(i + 1).drop_last() =~= sv.take(i as int));
            assert(sv.take(i + 1).last() == s@);
        }
        if (s.kind == SymbolKind::Function || s.kind == SymbolKind::Method) && !begins_with(
            s.name.as_str(),
            "test_",
        ) && !begins_with(s.name.as_str(), "bench_") {
            let incoming: usize = caller_count(graph, s.name.as_str());
            let key = make_key(s.file.as_str(), s.name.as_str());
            let out_count: usize = match graph.call_edges.get(key.as_str()) {
                Some(v) => v.len(),
                None => 0,
            };
            if incoming == 0 || (incoming <= 1 && out_count >= SECONDARY_ENTRY_MIN_OUT) {
                if !listed(key.as_str(), &out) {
                    out.push(key);
                }
            }
        }
        i += 1;
    }
    assert(sv.take(i as int) =~= sv);
    out
}

// ── Following calls ──────────────────────────────────────────────────────────

/// The steps with the definitions of `callee` that were not reached before,
/// as long as there is room.
pub open spec fn reach_files(
    entry: Seq<char>,
    steps: Seq<Seq<char>>,
    files: Seq<Seq<char>>,
    callee: Seq<char>,
) -> Seq<Seq<char>>
    decreases files.len(),
{
    if files.len() == 0 {
        steps
    } else {
        let s = reach_files(entry, steps, files.drop_last(), callee);
        let key = key_of(files.last(), callee);
        if key == entry || s.contains(key) || s.len() >= MAX_PATH_STEPS {
            s
        } else {
            s.push(key)
        }
    }
}

/// The files that define a name.
pub open spec fn definitions(g: ProjectGraph, callee: Seq<char>) -> Seq<Seq<char>> {
    index::list_at(index::file_lists(g.by_name@), callee)
}

/// Whether a call is followed: not into names that many files define, and
/// not into what everything calls.
pub open spec fn followed(g: ProjectGraph, callee: Seq<char>) -> bool {
    definitions(g, callee).len() < MAX_AMBIGUITY && callers(g, callee) < UTILITY_THRESHOLD
}

/// The steps once the calls from number `k` on were followed, and whether
/// there are enough of them.
pub open spec fn reach_calls(
    g: ProjectGraph,
    entry: Seq<char>,
    steps: Seq<Seq<char>>,
    edges: Seq<CallEdge>,
    k: int,
) -> (Seq<Seq<char>>, bool)
    decreases edges.len() - k,
{
    if k < 0 || k >= edges.len() {
        (steps, false)
    } else if steps.len() >= MAX_PATH_STEPS {
        (steps, true)
    } else {
        let callee = edges[k].callee@;
        let s = if followed(g, callee) {
            reach_files(entry, steps, definitions(g, callee), callee)
        } else {
            steps
        };
        reach_calls(g, entry, s, edges, k + 1)
    }
}

pub open spec fn edges_of(g: ProjectGraph, key: Seq<char>) -> Seq<CallEdge> {
    if g.call_edges@.dom().contains(key) {
        g.call_edges@[key]@
    } else {
        Seq::empty()
    }
}

/// The steps of a chain: the calls of the entry and of each step, in the
/// order the steps were reached, from number `i` on.
pub open spec fn chain(g: ProjectGraph, entry: Seq<char>, steps: Seq<Seq<char>>, i: int) -> Seq<
    Seq<char>,
>
    decreases MAX_PATH_STEPS + 1 - i,
{
    if i < 0 || i > steps.len() || i > MAX_PATH_STEPS {
        steps
    } else {
        let key = if i == 0 {
            entry
        } else {
            steps[i - 1]
        };
        let r = reach_calls(g, entry, steps, edges_of(g, key), 0);
        if r.1 {
            r.0
        } else {
            chain(g, entry, r.0, i + 1)
        }
    }
}

fn follow_files(entry: &str, steps: &mut Vec<String>, files: &Vec<String>, callee: &str)
    ensures
        text::views(final(steps)@) == reach_files(
            entry@,
            text::views(old(steps)@),
            text::views(files@),
            callee@,
        ),
        old(steps).len() <= MAX_PATH_STEPS ==> final(steps).len() <= MAX_PATH_STEPS,
        final(steps).len() >= old(steps).len(),
{
    let ghost start = text::views(steps@);
    let ghost fs = text::views(files@);
    let mut i: usize = 0;
    assert(fs.take(0) =~= Seq::<Seq<char>>::empty());
    while i < files.len()
        invariant
            i <= files.len(),
            fs == text::views(files@),
            text::views(steps@) == reach_files(entry@, start, fs.take(i as int), callee@),
            old(steps).len() <= MAX_PATH_STEPS ==> steps.len() <= MAX_PATH_STEPS,
            steps.len() >= old(steps).len(),
        decreases files.len() - i,
    {
        assert(fs.take(i + 1).drop_last() =~= fs.take(i as int));
        assert(fs.take(i + 1).last() == files@[i as int]@);
        let key = make_key(files[i].as_str(), callee);
        assert(text::views(steps@).len() == steps@.len());
        if !(same(key.as_str(), entry) || listed(key.as_str(), steps) || steps.len()
            >= MAX_PATH_STEPS) {
            steps.push(key);
        }
        i += 1;
    }
    assert(fs.take(i as int) =~= fs);
}

/// Follows the calls of one symbol; tells whether there are enough steps.
fn follow_calls(graph: &ProjectGraph, entry: &str, steps: &mut Vec<String>, edges: &Vec<CallEdge>) -> (r:
    bool)
    ensures
        (text::views(final(steps)@), r) == reach_calls(
            *graph,
            entry@,
            text::views(old(steps)@),
            edges@,
            0,
        ),
        old(steps).len() <= MAX_PATH_STEPS ==> final(steps).len() <= MAX_PATH_STEPS,
        final(steps).len() >= old(steps).len(),
{
    let ghost start = text::views(steps@);
    let ghost goal = reach_calls(*graph, entry@, start, edges@, 0);
    let mut k: usize = 0;
    while k < edges.len()
        invariant
            k <= edges.len(),
            goal == reach_calls(*graph, entry@, text::views(old(steps)@), edges@, 0),
            goal == reach_calls(*graph, entry@, text::views(steps@), edges@, k as int),
            steps.len() >= old(steps).len(),
            old(steps).len() <= MAX_PATH_STEPS ==> steps.len() <= MAX_PATH_STEPS,
        decreases edges.len() - k,
    {
        assert(text::views(steps@).len() == steps@.len());
        if steps.len() >= MAX_PATH_STEPS {
            return true;
        }
        let callee = edges[k].callee.as_str();
        match graph.by_name.get(callee) {
            Some(defs) => {
                assert(definitions(*graph, callee@) == text::views(defs@));
                assert(text::views(defs@).len() == defs@.len());
                if defs.len() < MAX_AMBIGUITY && caller_count(graph, callee) < UTILITY_THRESHOLD {
                    follow_files(entry, steps, defs, callee);
                }
            },
            None => {
                assert(reach_files(entry@, text::views(steps@), Seq::empty(), callee@)
                    == text::views(steps@));
            },
        }
        k += 1;
    }
    false
}

/// The chain that begins at a symbol, without that symbol.
pub fn trace_bfs(entry_key: &str, graph: &ProjectGraph) -> (r: Vec<String>)
    ensures
        text::views(r@) == chain(*graph, entry_key@, Seq::empty(), 0),
{
    let mut steps: Vec<String> = Vec::new();
    let ghost goal = chain(*graph, entry_key@, Seq::empty(), 0);
    let mut i: usize = 0;
    proof {
        text::views_empty();
    }
    while i <= steps.len()
        invariant
            i <= steps.len() + 1,
            steps.len() <= MAX_PATH_STEPS,
            goal == chain(*graph, entry_key@, Seq::empty(), 0),
            goal == chain(*graph, entry_key@, text::views(steps@), i as int),
        decreases MAX_PATH_STEPS + 1 - i,
    {
        assert(text::views(steps@).len() == steps@.len());
        let key = if i == 0 {
            entry_key.to_owned()
        } else {
            assert(text::views(steps@)[i - 1] == steps@[i - 1]@);
            steps[i - 1].clone()
        };
        match graph.call_edges.get(key.as_str()) {
            Some(edges) => {
                if follow_calls(graph, entry_key, &mut steps, edges) {
                    return steps;
                }
            },
            None => {},
        }
        i += 1;
    }
    steps
}

proof fn reach_files_distinct(
    entry: Seq<char>,
    steps: Seq<Seq<char>>,
    files: Seq<Seq<char>>,
    callee: Seq<char>,
)
    requires
        steps.no_duplicates(),
        !steps.contains(entry),
    ensures
        reach_files(entry, steps, files, callee).no_duplicates(),
        !reach_files(entry, steps, files, callee).contains(entry),
        steps.len() <= MAX_PATH_STEPS ==> reach_files(entry, steps, files, callee).len()
            <= MAX_PATH_STEPS,
    decreases files.len(),
{
    if files.len() > 0 {
        reach_files_distinct(entry, steps, files.drop_last(), callee);
        let s = reach_files(entry, steps, files.drop_last(), callee);
        let key = key_of(files.last(), callee);
        if !(key == entry || s.contains(key)) {
            let p = s.push(key);
            if p.contains(entry) {
                let i = choose|i: int| 0 <= i < p.len() && p[i] == entry;
                if i < s.len() {
                    assert(s[i] == entry);
                }
            }
        }
    }
}

proof fn reach_calls_distinct(
    g: ProjectGraph,
    entry: Seq<char>,
    steps: Seq<Seq<char>>,
    edges: Seq<CallEdge>,
    k: int,
)
    requires
        steps.no_duplicates(),
        !steps.contains(entry),
        steps.len() <= MAX_PATH_STEPS,
    ensures
        reach_calls(g, entry, steps, edges, k).0.no_duplicates(),
        !reach_calls(g, entry, steps, edges, k).0.contains(entry),
        reach_calls(g, entry, steps, edges, k).0.len() <= MAX_PATH_STEPS,
    decreases edges.len() - k,
{
    if 0 <= k < edges.len() && steps.len() < MAX_PATH_STEPS {
        let callee = edges[k].callee@;
        if followed(g, callee) {
            reach_files_distinct(entry, steps, definitions(g, callee), callee);
            reach_calls_distinct(
                g,
                entry,
                reach_files(entry, steps, definitions(g, callee), callee),
                edges,
                k + 1,
            );
        } else {
            reach_calls_distinct(g, entry, steps, edges, k + 1);
        }
    }
}

/// A chain reaches no symbol twice, never comes back to where it begins,
/// and has no more steps than it may.
pub proof fn chain_is_simple(g: ProjectGraph, entry: Seq<char>, steps: Seq<Seq<char>>, i: int)
    requires
        steps.no_duplicates(),
        !steps.contains(entry),
        steps.len() <= MAX_PATH_STEPS,
    ensures
        chain(g, entry, steps, i).no_duplicates(),
        !chain(g, entry, steps, i).contains(entry),
        chain(g, entry, steps, i).len() <= MAX_PATH_STEPS,
    decreases MAX_PATH_STEPS + 1 - i,
{
    if 0 <= i <= steps.len() && i <= MAX_PATH_STEPS {
        let key = if i == 0 {
            entry
        } else {
            steps[i - 1]
        };
        let r = reach_calls(g, entry, steps, edges_of(g, key), 0);
        reach_calls_distinct(g, entry, steps, edges_of(g, key), 0);
        if !r.1 {
            chain_is_simple(g, entry, r.0, i + 1);
        }
    }
}

/// A place in what a chain goes through: the number of a node, that of one
/// of its calls, and that of one of the files that define what is called.
/// Node 0 is the entry, and node `p` is step `p - 1`. Whether the place
/// leads to the symbol `key`: its callee is neither defined in many files
/// nor called from everywhere, and the file at the place defines `key`.
#[verifier::opaque]
pub open spec fn leads(
    g: ProjectGraph,
    entry: Seq<char>,
    steps: Seq<Seq<char>>,
    at: (int, int, int),
    key: Seq<char>,
) -> bool {
    let node = if at.0 == 0 {
        entry
    } else {
        steps[at.0 - 1]
    };
    &&& 0 <= at.0 <= steps.len()
    &&& g.call_edges@.dom().contains(node)
    &&& 0 <= at.1 < g.call_edges@[node]@.len()
    &&& {
        let callee = g.call_edges@[node]@[at.1].callee@;
        &&& g.by_name@.dom().contains(callee)
        &&& g.by_name@[callee]@.len() < 4
        &&& callers(g, callee) < 6
        &&& 0 <= at.2 < g.by_name@[callee]@.len()
        &&& key == g.by_name@[callee]@[at.2]@ + "::"@ + callee
    }
}

/// Whether place `a` comes before place `b`.
pub open spec fn earlier(a: (int, int, int), b: (int, int, int)) -> bool {
    a.0 < b.0 || (a.0 == b.0 && (a.1 < b.1 || (a.1 == b.1 && a.2 < b.2)))
}

/// Whether a place before `at` leads to `key`.
#[verifier::opaque]
pub open spec fn led_before(
    g: ProjectGraph,
    entry: Seq<char>,
    steps: Seq<Seq<char>>,
    at: (int, int, int),
    key: Seq<char>,
) -> bool {
    exists|q: (int, int, int)| #[trigger] leads(g, entry, steps, q, key) && earlier(q, at)
}

/// Whether places before `at` lead to all steps.
#[verifier::opaque]
pub open spec fn all_led(
    g: ProjectGraph,
    entry: Seq<char>,
    steps: Seq<Seq<char>>,
    at: (int, int, int),
) -> bool {
    forall|k: int| 0 <= k < steps.len() ==> led_before(g, entry, steps, at, #[trigger] steps[k])
}

/// Whether the entry or a step before step `k` leads to it.
#[verifier::opaque]
pub open spec fn comes_by_call(
    g: ProjectGraph,
    entry: Seq<char>,
    steps: Seq<Seq<char>>,
    k: int,
) -> bool {
    exists|at: (int, int, int)| #[trigger] leads(g, entry, steps, at, steps[k]) && at.0 <= k
}

/// Whether the entry or a step before step `k` leads to it, from a place
/// before `at`.
#[verifier::opaque]
spec fn led_by(
    g: ProjectGraph,
    entry: Seq<char>,
    steps: Seq<Seq<char>>,
    at: (int, int, int),
    k: int,
) -> bool {
    exists|q: (int, int, int)| #[trigger]
        leads(g, entry, steps, q, steps[k]) && earlier(q, at) && q.0 <= k
}

/// Whether what a place leads to was reached, or there was no room.
spec fn settled(
    g: ProjectGraph,
    entry: Seq<char>,
    steps: Seq<Seq<char>>,
    r: (int, int, int),
    key: Seq<char>,
) -> bool {
    key == entry || steps.contains(key) || (steps.len() >= MAX_PATH_STEPS && all_led(
        g,
        entry,
        steps,
        r,
    ))
}

/// What holds of the steps once the places before `at` were gone through.
#[verifier::opaque]
spec fn traced(
    g: ProjectGraph,
    entry: Seq<char>,
    steps: Seq<Seq<char>>,
    at: (int, int, int),
) -> bool {
    &&& at.0 >= 0
    &&& forall|r: (int, int, int), key: Seq<char>| #[trigger]
        leads(g, entry, steps, r, key) && earlier(r, at) ==> settled(g, entry, steps, r, key)
    &&& forall|k: int| 0 <= k < steps.len() ==> #[trigger] led_by(g, entry, steps, at, k)
    &&& forall|k: int, l: int, r: (int, int, int)|
        #![trigger leads(g, entry, steps, r, steps[l]), steps[k]]
        0 <= k < l < steps.len() && leads(g, entry, steps, r, steps[l]) && earlier(r, at)
            ==> led_before(g, entry, steps, r, steps[k])
}

proof fn led_by_now(
    g: ProjectGraph,
    entry: Seq<char>,
    steps: Seq<Seq<char>>,
    a: (int, int, int),
    b: (int, int, int),
    k: int,
)
    requires
        led_by(g, entry, steps, a, k),
        !earlier(b, a),
    ensures
        led_before(g, entry, steps, b, steps[k]),
        led_by(g, entry, steps, b, k),
{
    reveal(led_by);
    reveal(led_before);
    let q = choose|q: (int, int, int)| #[trigger]
        leads(g, entry, steps, q, steps[k]) && earlier(q, a) && q.0 <= k;
    assert(leads(g, entry, steps, q, steps[k]) && earlier(q, b));
}

proof fn all_led_now(
    g: ProjectGraph,
    entry: Seq<char>,
    steps: Seq<Seq<char>>,
    a: (int, int, int),
    b: (int, int, int),
)
    requires
        traced(g, entry, steps, a),
        !earlier(b, a),
    ensures
        all_led(g, entry, steps, b),
        forall|k: int|
            0 <= k < steps.len() ==> led_before(g, entry, steps, b, #[trigger] steps[k]),
        forall|k: int| 0 <= k < steps.len() ==> #[trigger] led_by(g, entry, steps, b, k),
{
    reveal(traced);
    reveal(all_led);
    assert forall|k: int| 0 <= k < steps.len() implies led_before(
        g,
        entry,
        steps,
        b,
        #[trigger] steps[k],
    ) by {
        assert(led_by(g, entry, steps, a, k));
        led_by_now(g, entry, steps, a, b, k);
    }
    assert forall|k: int| 0 <= k < steps.len() implies #[trigger] led_by(g, entry, steps, b, k) by {
        assert(led_by(g, entry, steps, a, k));
        led_by_now(g, entry, steps, a, b, k);
    }
}

proof fn traced_over(
    g: ProjectGraph,
    entry: Seq<char>,
    steps: Seq<Seq<char>>,
    a: (int, int, int),
    b: (int, int, int),
)
    requires
        traced(g, entry, steps, a),
        b.0 >= 0,
        !earlier(b, a),
        forall|r: (int, int, int), key: Seq<char>| #[trigger]
            leads(g, entry, steps, r, key) && earlier(r, b) ==> earlier(r, a),
    ensures
        traced(g, entry, steps, b),
{
    all_led_now(g, entry, steps, a, b);
    reveal(traced);
}

/// A place that leads to nothing new is gone through.
proof fn traced_same(
    g: ProjectGraph,
    entry: Seq<char>,
    steps: Seq<Seq<char>>,
    at: (int, int, int),
    key: Seq<char>,
)
    requires
        traced(g, entry, steps, at),
        leads(g, entry, steps, at, key),
        key == entry || steps.contains(key) || steps.len() >= MAX_PATH_STEPS,
    ensures
        traced(g, entry, steps, (at.0, at.1, at.2 + 1)),
{
    let next = (at.0, at.1, at.2 + 1);
    all_led_now(g, entry, steps, at, at);
    all_led_now(g, entry, steps, at, next);
    reveal(traced);
    assert forall|r: (int, int, int), x: Seq<char>| #[trigger]
        leads(g, entry, steps, r, x) && earlier(r, next) implies settled(g, entry, steps, r, x) by {
        if !earlier(r, at) {
            assert(r == at);
            leads_one(g, entry, steps, at, key, x);
        }
    }
    assert forall|k: int, l: int, r: (int, int, int)|
        #![trigger leads(g, entry, steps, r, steps[l]), steps[k]]
        0 <= k < l < steps.len() && leads(g, entry, steps, r, steps[l]) && earlier(r, next)
            implies led_before(g, entry, steps, r, steps[k]) by {
        if !earlier(r, at) {
            assert(r == at);
        }
    }
}

proof fn leads_one(
    g: ProjectGraph,
    entry: Seq<char>,
    steps: Seq<Seq<char>>,
    at: (int, int, int),
    a: Seq<char>,
    b: Seq<char>,
)
    requires
        leads(g, entry, steps, at, a),
        leads(g, entry, steps, at, b),
    ensures
        a == b,
{
    reveal(leads);
}

proof fn leads_on(
    g: ProjectGraph,
    entry: Seq<char>,
    steps: Seq<Seq<char>>,
    new: Seq<char>,
    r: (int, int, int),
    key: Seq<char>,
)
    ensures
        leads(g, entry, steps, r, key) ==> leads(g, entry, steps.push(new), r, key),
        leads(g, entry, steps.push(new), r, key) && r.0 <= steps.len() ==> leads(
            g,
            entry,
            steps,
            r,
            key,
        ),
{
    reveal(leads);
    if 0 < r.0 <= steps.len() {
        assert(steps.push(new)[r.0 - 1] == steps[r.0 - 1]);
    }
}

proof fn led_on(
    g: ProjectGraph,
    entry: Seq<char>,
    steps: Seq<Seq<char>>,
    new: Seq<char>,
    at: (int, int, int),
    key: Seq<char>,
)
    requires
        led_before(g, entry, steps, at, key),
    ensures
        led_before(g, entry, steps.push(new), at, key),
{
    reveal(led_before);
    let q = choose|q: (int, int, int)| #[trigger] leads(g, entry, steps, q, key) && earlier(q, at);
    leads_on(g, entry, steps, new, q, key);
    assert(leads(g, entry, steps.push(new), q, key));
}

proof fn led_by_on(
    g: ProjectGraph,
    entry: Seq<char>,
    steps: Seq<Seq<char>>,
    new: Seq<char>,
    at: (int, int, int),
    k: int,
)
    requires
        0 <= k < steps.len(),
        led_by(g, entry, steps, at, k),
    ensures
        led_by(g, entry, steps.push(new), at, k),
{
    reveal(led_by);
    let q = choose|q: (int, int, int)| #[trigger]
        leads(g, entry, steps, q, steps[k]) && earlier(q, at) && q.0 <= k;
    leads_on(g, entry, steps, new, q, steps[k]);
    assert(steps.push(new)[k] == steps[k]);
    assert(leads(g, entry, steps.push(new), q, steps.push(new)[k]));
}

/// A place that leads to a new symbol makes it the next step.
proof fn traced_push(
    g: ProjectGraph,
    entry: Seq<char>,
    steps: Seq<Seq<char>>,
    at: (int, int, int),
    key: Seq<char>,
)
    requires
        traced(g, entry, steps, at),
        leads(g, entry, steps, at, key),
        at.0 <= steps.len(),
        key != entry,
        !steps.contains(key),
        steps.len() < MAX_PATH_STEPS,
    ensures
        traced(g, entry, steps.push(key), (at.0, at.1, at.2 + 1)),
{
    let next = (at.0, at.1, at.2 + 1);
    let more = steps.push(key);
    all_led_now(g, entry, steps, at, at);
    all_led_now(g, entry, steps, at, next);
    reveal(traced);
    assert(more[steps.len() as int] == key);
    assert(more.contains(key));
    assert forall|r: (int, int, int), x: Seq<char>| #[trigger]
        leads(g, entry, more, r, x) && earlier(r, next) implies settled(g, entry, more, r, x) by {
        leads_on(g, entry, steps, key, r, x);
        if earlier(r, at) {
            assert(leads(g, entry, steps, r, x));
            assert(settled(g, entry, steps, r, x));
            if steps.contains(x) {
                let i = choose|i: int| 0 <= i < steps.len() && steps[i] == x;
                assert(more[i] == x);
            }
        } else {
            assert(r == at);
            leads_one(g, entry, steps, at, key, x);
        }
    }
    assert forall|k: int| 0 <= k < more.len() implies #[trigger] led_by(g, entry, more, next, k) by {
        if k < steps.len() {
            assert(led_by(g, entry, steps, next, k));
            led_by_on(g, entry, steps, key, next, k);
        } else {
            reveal(led_by);
            leads_on(g, entry, steps, key, at, key);
            assert(leads(g, entry, more, at, more[k]));
        }
    }
    assert forall|k: int, l: int, r: (int, int, int)|
        #![trigger leads(g, entry, more, r, more[l]), more[k]]
        0 <= k < l < more.len() && leads(g, entry, more, r, more[l]) && earlier(r, next)
            implies led_before(g, entry, more, r, more[k]) by {
        leads_on(g, entry, steps, key, r, more[l]);
        assert(more[k] == steps[k]);
        if !earlier(r, at) {
            assert(r == at);
            led_on(g, entry, steps, key, at, steps[k]);
        } else if l < steps.len() {
            assert(more[l] == steps[l]);
            assert(led_before(g, entry, steps, r, steps[k]));
            led_on(g, entry, steps, key, r, steps[k]);
        } else {
            assert(leads(g, entry, steps, r, key));
            assert(settled(g, entry, steps, r, key));
            assert(false);
        }
    }
}

spec fn node_at(entry: Seq<char>, steps: Seq<Seq<char>>, p: int) -> Seq<char> {
    if p == 0 {
        entry
    } else {
        steps[p - 1]
    }
}

proof fn files_traced(
    g: ProjectGraph,
    entry: Seq<char>,
    steps: Seq<Seq<char>>,
    p: int,
    e: int,
    n: int,
)
    requires
        0 <= p <= steps.len(),
        0 <= e < edges_of(g, node_at(entry, steps, p)).len(),
        followed(g, edges_of(g, node_at(entry, steps, p))[e].callee@),
        0 <= n <= definitions(g, edges_of(g, node_at(entry, steps, p))[e].callee@).len(),
        traced(g, entry, steps, (p, e, 0)),
    ensures
        ({
            let callee = edges_of(g, node_at(entry, steps, p))[e].callee@;
            let s = reach_files(entry, steps, definitions(g, callee).take(n), callee);
            &&& traced(g, entry, s, (p, e, n))
            &&& s.len() >= steps.len()
            &&& s.take(steps.len() as int) == steps
        }),
    decreases n,
{
    let callee = edges_of(g, node_at(entry, steps, p))[e].callee@;
    let defs = definitions(g, callee);
    if n == 0 {
        assert(defs.take(0) =~= Seq::<Seq<char>>::empty());
        assert(steps.take(steps.len() as int) =~= steps);
    } else {
        files_traced(g, entry, steps, p, e, n - 1);
        let s = reach_files(entry, steps, defs.take(n - 1), callee);
        assert(defs.take(n).drop_last() =~= defs.take(n - 1));
        assert(defs.take(n).last() == defs[n - 1]);
        let key = key_of(defs[n - 1], callee);
        let at = (p, e, n - 1);
        assert(leads(g, entry, s, at, key)) by {
            reveal(leads);
            if p > 0 {
                assert(s.take(steps.len() as int)[p - 1] == s[p - 1]);
            }
            assert(defs[n - 1] == g.by_name@[callee]@[n - 1]@);
        }
        if key == entry || s.contains(key) || s.len() >= MAX_PATH_STEPS {
            traced_same(g, entry, s, at, key);
        } else {
            traced_push(g, entry, s, at, key);
            assert(s.push(key).take(steps.len() as int) =~= s.take(steps.len() as int));
        }
    }
}

proof fn calls_traced(g: ProjectGraph, entry: Seq<char>, steps: Seq<Seq<char>>, p: int, e: int)
    requires
        0 <= p <= steps.len(),
        0 <= e <= edges_of(g, node_at(entry, steps, p)).len(),
        traced(g, entry, steps, (p, e, 0)),
    ensures
        ({
            let r = reach_calls(g, entry, steps, edges_of(g, node_at(entry, steps, p)), e);
            &&& r.0.len() >= steps.len()
            &&& r.1 ==> r.0.len() >= MAX_PATH_STEPS && exists|at: (int, int, int)| #[trigger]
                traced(g, entry, r.0, at)
            &&& !r.1 ==> traced(g, entry, r.0, (p + 1, 0, 0))
        }),
    decreases edges_of(g, node_at(entry, steps, p)).len() - e,
{
    let edges = edges_of(g, node_at(entry, steps, p));
    if e >= edges.len() {
        assert forall|r: (int, int, int), key: Seq<char>| #[trigger]
            leads(g, entry, steps, r, key) && earlier(r, (p + 1, 0, 0)) implies earlier(
            r,
            (p, e, 0),
        ) by {
            reveal(leads);
        }
        traced_over(g, entry, steps, (p, e, 0), (p + 1, 0, 0));
    } else if steps.len() >= MAX_PATH_STEPS {
        assert(traced(g, entry, steps, (p, e, 0)));
    } else {
        let callee = edges[e].callee@;
        let defs = definitions(g, callee);
        if followed(g, callee) {
            let n = defs.len() as int;
            files_traced(g, entry, steps, p, e, n);
            assert(defs.take(n) =~= defs);
            let s = reach_files(entry, steps, defs, callee);
            if p > 0 {
                assert(s.take(steps.len() as int)[p - 1] == s[p - 1]);
            }
            assert forall|r: (int, int, int), key: Seq<char>| #[trigger]
                leads(g, entry, s, r, key) && earlier(r, (p, e + 1, 0)) implies earlier(
                r,
                (p, e, n),
            ) by {
                reveal(leads);
            }
            traced_over(g, entry, s, (p, e, n), (p, e + 1, 0));
            calls_traced(g, entry, s, p, e + 1);
        } else {
            assert forall|r: (int, int, int), key: Seq<char>| #[trigger]
                leads(g, entry, steps, r, key) && earlier(r, (p, e + 1, 0)) implies earlier(
                r,
                (p, e, 0),
            ) by {
                reveal(leads);
                if r.0 == p && r.1 == e {
                    assert(definitions(g, callee).len() == g.by_name@[callee]@.len());
                }
            }
            traced_over(g, entry, steps, (p, e, 0), (p, e + 1, 0));
            calls_traced(g, entry, steps, p, e + 1);
        }
    }
}

proof fn chain_traced(g: ProjectGraph, entry: Seq<char>, steps: Seq<Seq<char>>, i: int)
    requires
        0 <= i <= steps.len() + 1,
        steps.no_duplicates(),
        !steps.contains(entry),
        steps.len() <= MAX_PATH_STEPS,
        traced(g, entry, steps, (i, 0, 0)),
    ensures
        ({
            let s = chain(g, entry, steps, i);
            exists|at: (int, int, int)| #[trigger]
                traced(g, entry, s, at) && (at.0 > s.len() || s.len() >= MAX_PATH_STEPS)
        }),
    decreases MAX_PATH_STEPS + 1 - i,
{
    if i > steps.len() {
        let at: (int, int, int) = (i, 0, 0);
        assert(chain(g, entry, steps, i) == steps);
        assert(traced(g, entry, steps, at) && at.0 > steps.len());
    } else {
        let key = node_at(entry, steps, i);
        calls_traced(g, entry, steps, i, 0);
        reach_calls_distinct(g, entry, steps, edges_of(g, key), 0);
        let r = reach_calls(g, entry, steps, edges_of(g, key), 0);
        if r.1 {
            let at = choose|at: (int, int, int)| #[trigger] traced(g, entry, r.0, at);
            assert(chain(g, entry, steps, i) == r.0);
            assert(traced(g, entry, r.0, at) && r.0.len() >= MAX_PATH_STEPS);
        } else {
            chain_traced(g, entry, r.0, i + 1);
            let s = chain(g, entry, r.0, i + 1);
            assert(chain(g, entry, steps, i) == s);
            let at = choose|at: (int, int, int)| #[trigger]
                traced(g, entry, s, at) && (at.0 > s.len() || s.len() >= MAX_PATH_STEPS);
            assert(traced(g, entry, s, at));
        }
    }
}

/// A chain holds what the calls lead to, breadth first, in eighteen steps at
/// most, no two of them alike and none the entry. Each step is led to
/// from the entry or from a step before it. Where a place leads to a symbol,
/// that is the entry or a step, unless the chain is as long as it may be and
/// places before that one led to all its steps. And of two steps the first
/// is the one that is led to earlier.
pub proof fn chain_follows_calls(g: ProjectGraph, entry: Seq<char>)
    ensures
        ({
            let steps = chain(g, entry, Seq::empty(), 0);
            &&& steps.len() <= 18 && steps.no_duplicates() && !steps.contains(entry)
            &&& forall|at: (int, int, int), key: Seq<char>| #[trigger]
                leads(g, entry, steps, at, key) ==> key == entry || steps.contains(key) || (
                steps.len() >= 18 && all_led(g, entry, steps, at))
            &&& forall|k: int| 0 <= k < steps.len() ==> #[trigger] comes_by_call(g, entry, steps, k)
            &&& forall|k: int, l: int, at: (int, int, int)|
                #![trigger leads(g, entry, steps, at, steps[l]), steps[k]]
                0 <= k < l < steps.len() && leads(g, entry, steps, at, steps[l]) ==> led_before(
                    g,
                    entry,
                    steps,
                    at,
                    steps[k],
                )
        }),
{
    let none = Seq::<Seq<char>>::empty();
    assert(traced(g, entry, none, (0, 0, 0))) by {
        reveal(traced);
        reveal(leads);
    }
    chain_traced(g, entry, none, 0);
    chain_is_simple(g, entry, none, 0);
    let steps = chain(g, entry, none, 0);
    let end = choose|at: (int, int, int)| #[trigger]
        traced(g, entry, steps, at) && (at.0 > steps.len() || steps.len() >= MAX_PATH_STEPS);
    assert forall|at: (int, int, int), key: Seq<char>| #[trigger]
        leads(g, entry, steps, at, key) implies key == entry || steps.contains(key) || (
    steps.len() >= MAX_PATH_STEPS && all_led(g, entry, steps, at)) by {
        if earlier(at, end) {
            reveal(traced);
            assert(settled(g, entry, steps, at, key));
        } else {
            all_led_now(g, entry, steps, end, at);
            reveal(leads);
        }
    }
    assert forall|k: int| 0 <= k < steps.len() implies #[trigger] comes_by_call(
        g,
        entry,
        steps,
        k,
    ) by {
        reveal(comes_by_call);
        assert(led_by(g, entry, steps, end, k)) by {
            reveal(traced);
        }
        reveal(led_by);
        let q = choose|q: (int, int, int)| #[trigger]
            leads(g, entry, steps, q, steps[k]) && earlier(q, end) && q.0 <= k;
        assert(leads(g, entry, steps, q, steps[k]));
    }
    assert forall|k: int, l: int, at: (int, int, int)|
        #![trigger leads(g, entry, steps, at, steps[l]), steps[k]]
        0 <= k < l < steps.len() && leads(g, entry, steps, at, steps[l]) implies led_before(
        g,
        entry,
        steps,
        at,
        steps[k],
    ) by {
        if earlier(at, end) {
            reveal(traced);
        } else {
            all_led_now(g, entry, steps, end, at);
        }
    }
}

// ── Names of chains ──────────────────────────────────────────────────────────

/// A chain's name: its first and its last symbol.
pub open spec fn chain_name(entry: Seq<char>, steps: Seq<Seq<char>>) -> Seq<char> {
    if steps.len() == 0 {
        symbol_of(entry)
    } else {
        symbol_of(entry) + " → "@ + symbol_of(steps.last())
    }
}

pub fn path_name(entry_key: &str, steps: &Vec<String>) -> (r: String)
    ensures
        r@ == chain_name(entry_key@, text::views(steps@)),
{
    let mut s = sym_name(entry_key);
    assert(text::views(steps@).len() == steps@.len());
    if steps.len() > 0 {
        let n: usize = steps.len() - 1;
        assert(text::views(steps@)[n as int] == steps@[n as int]@);
        s.append(" → ");
        s.append(sym_name(steps[n].as_str()).as_str());
    }
    s
}

pub open spec fn dashed(s: Seq<char>) -> Seq<char> {
    pieces::replace(s, "_"@, "-"@)
}

/// A chain's id: its first and its last symbol, with dashes.
pub open spec fn chain_id(entry: Seq<char>, steps: Seq<Seq<char>>) -> Seq<char> {
    dashed(symbol_of(entry)) + "-to-"@ + (if steps.len() == 0 {
        "end"@
    } else {
        dashed(symbol_of(steps.last()))
    })
}

pub fn path_id(entry_key: &str, steps: &Vec<String>) -> (r: String)
    ensures
        r@ == chain_id(entry_key@, text::views(steps@)),
{
    proof {
        reveal_strlit("_");
    }
    let e = sym_name(entry_key);
    let mut s = replaced(e.as_str(), "_", "-");
    s.append("-to-");
    assert(text::views(steps@).len() == steps@.len());
    if steps.len() == 0 {
        s.append("end");
    } else {
        let n: usize = steps.len() - 1;
        assert(text::views(steps@)[n as int] == steps@[n as int]@);
        let t = sym_name(steps[n].as_str());
        s.append(replaced(t.as_str(), "_", "-").as_str());
    }
    s
}

// ── Chains that are alike ────────────────────────────────────────────────────

/// How many of the items of `a` are in `b`.
pub open spec fn shared(a: Seq<Seq<char>>, b: Seq<Seq<char>>) -> nat
    decreases a.len(),
{
    if a.len() == 0 {
        0
    } else {
        shared(a.drop_last(), b) + if b.contains(a.last()) {
            1nat
        } else {
            0nat
        }
    }
}

fn count_shared(a: &Vec<String>, b: &Vec<String>) -> (n: usize)
    ensures
        n == shared(text::views(a@), text::views(b@)),
        n <= a.len(),
{
    let ghost all = text::views(a@);
    let mut n: usize = 0;
    let mut i: usize = 0;
    assert(all.take(0) =~= Seq::<Seq<char>>::empty());
    while i < a.len()
        invariant
            i <= a.len(),
            n <= i,
            all == text::views(a@),
            n == shared(all.take(i as int), text::views(b@)),
        decreases a.len() - i,
    {
        assert(all.take(i + 1).drop_last() =~= all.take(i as int));
        assert(all.take(i + 1).last() == a@[i as int]@);
        if listed(a[i].as_str(), b) {
            n += 1;
        }
        i += 1;
    }
    assert(all.take(i as int) =~= all);
    n
}

/// The number of shared items is the number of items of the first list that
/// the second holds.
pub proof fn shared_are_counted(a: Seq<Seq<char>>, b: Seq<Seq<char>>)
    ensures
        shared(a, b) == a.filter(|x: Seq<char>| b.contains(x)).len(),
    decreases a.len(),
{
    reveal(Seq::filter);
    if a.len() > 0 {
        shared_are_counted(a.drop_last(), b);
    }
}

proof fn filtered_once(a: Seq<Seq<char>>, p: spec_fn(Seq<char>) -> bool)
    requires
        a.no_duplicates(),
    ensures
        a.filter(p).no_duplicates(),
    decreases a.len(),
{
    reveal(Seq::filter);
    if a.len() > 0 {
        let t = a.drop_last();
        filtered_once(t, p);
        let f = t.filter(p);
        let r = a.filter(p);
        if p(a.last()) {
            assert forall|i: int, j: int| 0 <= i < r.len() && 0 <= j < r.len() && i != j implies r[i]
                != r[j] by {
                if i == f.len() || j == f.len() {
                    let k = if i == f.len() {
                        j
                    } else {
                        i
                    };
                    assert(f[k] == r[k]);
                    t.lemma_filter_contains_rev(p, f[k]);
                    let x = t.index_of(f[k]);
                    assert(a[x] == f[k]);
                }
            }
        }
    }
}

/// Chains are alike if and only if the steps that both have are at least four
/// fifths of the steps of the one with fewer different steps.
pub proof fn alike_goes_by_common_steps(a: Seq<Seq<char>>, b: Seq<Seq<char>>)
    ensures
        ({
            let fewer = if a.to_set().len() <= b.to_set().len() {
                a.to_set().len()
            } else {
                b.to_set().len()
            };
            alike(a, b) <==> fewer > 0 && 5 * a.to_set().intersect(b.to_set()).len() >= 4 * fewer
        }),
        alike(a, b) == alike(b, a),
{
    common_steps(a, b);
    common_steps(b, a);
    assert(a.to_set().intersect(b.to_set()) =~= b.to_set().intersect(a.to_set()));
}

proof fn common_steps(a: Seq<Seq<char>>, b: Seq<Seq<char>>)
    ensures
        shared(distinct(a), b) == a.to_set().intersect(b.to_set()).len(),
        distinct(a).len() == a.to_set().len(),
{
    let d = distinct(a);
    distinct_is_distinct(a);
    d.unique_seq_to_set();
    assert forall|x: Seq<char>| d.to_set().contains(x) == a.to_set().contains(x) by {
        assert(d.contains(x) == a.contains(x));
    }
    assert(d.to_set() =~= a.to_set());
    let p = |x: Seq<char>| b.contains(x);
    let f = d.filter(p);
    shared_are_counted(d, b);
    filtered_once(d, p);
    f.unique_seq_to_set();
    assert forall|x: Seq<char>| f.to_set().contains(x) == a.to_set().intersect(b.to_set()).contains(x) by {
        if f.contains(x) {
            d.lemma_filter_contains_rev(p, x);
            let i = f.index_of(x);
            d.lemma_filter_pred(p, i);
            assert(d.contains(x));
            assert(a.contains(x));
        }
        if a.contains(x) && b.contains(x) {
            assert(d.contains(x));
            let i = d.index_of(x);
            d.lemma_filter_contains(p, i);
        }
    }
    assert(f.to_set() =~= a.to_set().intersect(b.to_set()));
}

pub open spec fn smaller(a: nat, b: nat) -> nat {
    if a <= b {
        a
    } else {
        b
    }
}

/// Whether two chains share four fifths of the steps of the shorter one.
pub open spec fn alike(a: Seq<Seq<char>>, b: Seq<Seq<char>>) -> bool {
    let m = smaller(distinct(a).len(), distinct(b).len());
    m > 0 && 5 * shared(distinct(a), b) >= 4 * m
}

fn are_alike(a: &Vec<String>, b: &Vec<String>) -> (r: bool)
    ensures
        r == alike(text::views(a@), text::views(b@)),
{
    let da = distinct_of(a);
    let db = distinct_of(b);
    assert(text::views(da@).len() == da@.len());
    assert(text::views(db@).len() == db@.len());
    let n: usize = count_shared(&da, b);
    let m: usize = if da.len() <= db.len() {
        da.len()
    } else {
        db.len()
    };
    m > 0 && 5 * (n as u128) >= 4 * (m as u128)
}

/// Longer chains first.
pub open spec fn by_length() -> spec_fn(PathView, PathView) -> bool {
    |a: PathView, b: PathView| a.steps.len() >= b.steps.len()
}

/// Whether a chain is like one of those.
pub open spec fn like_one(kept: Seq<PathView>, p: PathView) -> bool {
    exists|i: int| 0 <= i < kept.len() && alike((#[trigger] kept[i]).steps, p.steps)
}

/// The chains that are like none before them.
pub open spec fn unlike(ps: Seq<PathView>) -> Seq<PathView>
    decreases ps.len(),
{
    if ps.len() == 0 {
        ps
    } else {
        let k = unlike(ps.drop_last());
        if like_one(k, ps.last()) {
            k
        } else {
            k.push(ps.last())
        }
    }
}

/// Of the chains that stay, none is like one before it.
pub proof fn kept_are_unlike(ps: Seq<PathView>)
    ensures
        forall|i: int, j: int|
            0 <= i < j < unlike(ps).len() ==> !alike(
                (#[trigger] unlike(ps)[i]).steps,
                (#[trigger] unlike(ps)[j]).steps,
            ),
    decreases ps.len(),
{
    if ps.len() > 0 {
        let k = unlike(ps.drop_last());
        let u = unlike(ps);
        kept_are_unlike(ps.drop_last());
        assert forall|i: int, j: int| 0 <= i < j < u.len() implies !alike(
            (#[trigger] u[i]).steps,
            (#[trigger] u[j]).steps,
        ) by {
            assert(u[i] == k[i]);
            if j < k.len() {
                assert(u[j] == k[j]);
            }
        }
    }
}

/// A chain stays, or it is like one that stays; nothing else stays.
pub proof fn dropped_are_alike(ps: Seq<PathView>, p: PathView)
    ensures
        unlike(ps).contains(p) ==> ps.contains(p),
        ps.contains(p) && !unlike(ps).contains(p) ==> exists|i: int|
            0 <= i < unlike(ps).len() && alike((#[trigger] unlike(ps)[i]).steps, p.steps),
        ps.len() > 0 ==> unlike(ps).len() > 0 && unlike(ps)[0] == ps[0],
    decreases ps.len(),
{
    if ps.len() > 0 {
        let t = ps.drop_last();
        dropped_are_alike(t, p);
        let k = unlike(t);
        let u = unlike(ps);
        assert(ps[ps.len() - 1] == ps.last());
        if t.len() == 0 {
            assert(k.len() == 0);
            assert(u =~= seq![ps.last()]);
        }
        if k.contains(p) {
            let i = k.index_of(p);
            assert(u[i] == p);
            let j = t.index_of(p);
            assert(ps[j] == p);
        }
        if u.contains(p) && !k.contains(p) {
            let i = u.index_of(p);
            if i < k.len() {
                assert(k[i] == p);
            }
            assert(p == ps.last());
        }
        if ps.contains(p) && !u.contains(p) {
            let j = ps.index_of(p);
            if j < t.len() {
                assert(t[j] == p);
                let i = choose|i: int|
                    0 <= i < k.len() && alike((#[trigger] k[i]).steps, p.steps);
                assert(u[i] == k[i]);
            } else {
                if !like_one(k, p) {
                    assert(u[k.len() as int] == p);
                }
            }
        }
    }
}

/// Drops chains that are like a longer one.
pub fn dedup_paths(paths: &mut Vec<FlowPath>)
    ensures
        path_views(final(paths)@) == unlike(
            order::sorted_by(path_views(old(paths)@), by_length()),
        ),
{
    let ghost raw = paths@;
    let ghost rel = |a: FlowPath, b: FlowPath| a.steps@.len() >= b.steps@.len();
    let le = |a: &FlowPath, b: &FlowPath| -> (r: bool)
        ensures r == (a.steps@.len() >= b.steps@.len())
    {
        a.steps.len() >= b.steps.len()
    };
    sort_by(paths, le, Ghost(rel));
    let ghost sorted = path_views(paths@);
    proof {
        let f = |p: FlowPath| p@;
        let all = |p: FlowPath| true;
        order::sorted_map(raw, all, f, rel, by_length());
        assert(raw.map_values(f) =~= path_views(raw));
        assert(paths@.map_values(f) =~= sorted);
    }
    let mut left: Vec<FlowPath> = Vec::new();
    std::mem::swap(&mut left, paths);
    let ghost given = left@;
    let total: usize = left.len();
    let mut n: usize = 0;
    assert(sorted.take(0) =~= Seq::<PathView>::empty());
    assert(path_views(paths@) =~= sorted.take(0));
    while left.len() > 0
        invariant
            n + left.len() == given.len(),
            total == given.len(),
            left@ == given.skip(n as int),
            sorted == path_views(given),
            path_views(paths@) == unlike(sorted.take(n as int)),
        decreases left.len(),
    {
        let p = left.remove(0);
        let ghost kept = path_views(paths@);
        proof {
            assert(p == given[n as int]);
            assert(left@ =~= given.skip(n + 1));
            assert(sorted.take(n + 1).drop_last() =~= sorted.take(n as int));
            assert(sorted.take(n + 1).last() == p@);
        }
        let mut found: bool = false;
        let mut i: usize = 0;
        while i < paths.len() && !found
            invariant
                i <= paths.len(),
                kept == path_views(paths@),
                found ==> like_one(kept, p@),
                !found ==> forall|k: int| 0 <= k < i ==> !alike((#[trigger] kept[k]).steps, p@.steps),
            decreases paths.len() - i,
        {
            if are_alike(&paths[i].steps, &p.steps) {
                assert(alike(kept[i as int].steps, p@.steps));
                found = true;
            }
            i += 1;
        }
        if !found {
            paths.push(p);
            assert(path_views(paths@) =~= kept.push(p@));
        }
        n += 1;
    }
    assert(sorted.take(n as int) =~= sorted);
}

// ── All chains ───────────────────────────────────────────────────────────────

/// The chain that begins at a symbol.
pub open spec fn chain_from(g: ProjectGraph, entry: Seq<char>) -> PathView {
    let steps = chain(g, entry, Seq::empty(), 0);
    PathView {
        id: chain_id(entry, steps),
        name: chain_name(entry, steps),
        entry_key: entry,
        steps,
        keywords: chain_words(entry, steps),
    }
}

/// The chains from the entries; short ones are left out.
pub open spec fn chains_from(g: ProjectGraph, es: Seq<Seq<char>>) -> Seq<PathView>
    decreases es.len(),
{
    if es.len() == 0 {
        Seq::empty()
    } else {
        let p = chain_from(g, es.last());
        if p.steps.len() < MIN_PATH_STEPS {
            chains_from(g, es.drop_last())
        } else {
            chains_from(g, es.drop_last()).push(p)
        }
    }
}

/// Each entry whose chain has two steps or more gives its chain, and nothing
/// else does.
pub proof fn long_chains_are_taken(g: ProjectGraph, es: Seq<Seq<char>>)
    ensures
        chains_from(g, es) == es.map_values(|e: Seq<char>| chain_from(g, e)).filter(
            |p: PathView| p.steps.len() >= 2,
        ),
    decreases es.len(),
{
    reveal(Seq::filter);
    let f = |e: Seq<char>| chain_from(g, e);
    if es.len() > 0 {
        long_chains_are_taken(g, es.drop_last());
        assert(es.map_values(f).drop_last() =~= es.drop_last().map_values(f));
        assert(es.map_values(f).last() == chain_from(g, es.last()));
    } else {
        assert(es.map_values(f) =~= Seq::empty());
    }
}

/// Every entry's chain of two steps or more is among the chains of the
/// project, or one like it is; and each chain of the project is an entry's
/// chain of two steps or more.
pub proof fn project_has_all_chains(g: ProjectGraph, p: PathView)
    ensures
        ({
            let es = entries(g, index::symbol_views(g.symbols@));
            let all = project_chains(g);
            &&& (exists|i: int| 0 <= i < es.len() && p == chain_from(g, #[trigger] es[i]))
                && p.steps.len() >= 2 ==> all.contains(p) || exists|k: int|
                0 <= k < all.len() && alike((#[trigger] all[k]).steps, p.steps)
            &&& all.contains(p) ==> p.steps.len() >= 2 && exists|i: int|
                0 <= i < es.len() && p == chain_from(g, #[trigger] es[i])
        }),
{
    broadcast use vstd::seq_lib::group_to_multiset_ensures;

    let es = entries(g, index::symbol_views(g.symbols@));
    let cs = chains_from(g, es);
    let f = |e: Seq<char>| chain_from(g, e);
    let long = |q: PathView| q.steps.len() >= 2;
    long_chains_are_taken(g, es);
    let sorted = order::sorted_by(cs, by_length());
    order::sorted_is_sorted(cs, by_length());
    dropped_are_alike(sorted, p);
    assert(sorted.contains(p) == (sorted.to_multiset().count(p) > 0));
    assert(cs.contains(p) == (cs.to_multiset().count(p) > 0));
    let ms = es.map_values(f);
    if (exists|i: int| 0 <= i < es.len() && p == chain_from(g, #[trigger] es[i])) && p.steps.len()
        >= 2 {
        let i = choose|i: int| 0 <= i < es.len() && p == chain_from(g, #[trigger] es[i]);
        assert(ms[i] == p);
        ms.lemma_filter_contains(long, i);
        assert(cs.contains(p));
    }
    if cs.contains(p) {
        ms.lemma_filter_contains_rev(long, p);
        let k = cs.index_of(p);
        ms.lemma_filter_pred(long, k);
        let i = ms.index_of(p);
        assert(p == chain_from(g, es[i]));
    }
}

/// The chains of a project.
pub open spec fn project_chains(g: ProjectGraph) -> Seq<PathView> {
    unlike(
        order::sorted_by(
            chains_from(g, entries(g, index::symbol_views(g.symbols@))),
            by_length(),
        ),
    )
}

impl FlowPathIndex {
    /// The chains of a project, worked out at `built_at`. A project without
    /// calls has none.
    pub fn build_at(graph: &ProjectGraph, built_at: i64) -> (r: Self)
        ensures
            graph.call_edges.names().len() == 0 ==> r.paths@ == Seq::<FlowPath>::empty()
                && r.built_at == 0,
            graph.call_edges.names().len() > 0 ==> path_views(r.paths@) == project_chains(*graph)
                && r.built_at == built_at,
    {
        if graph.call_edges.len() == 0 {
            return FlowPathIndex::default();
        }
        let es = find_entry_points(graph);
        let ghost all = text::views(es@);
        let mut paths: Vec<FlowPath> = Vec::new();
        let mut i: usize = 0;
        assert(all.take(0) =~= Seq::<Seq<char>>::empty());
        assert(path_views(paths@) =~= Seq::<PathView>::empty());
        while i < es.len()
            invariant
                i <= es.len(),
                all == text::views(es@),
                path_views(paths@) == chains_from(*graph, all.take(i as int)),
            decreases es.len() - i,
        {
            let entry = es[i].as_str();
            proof {
                assert(all.take(i + 1).drop_last() =~= all.take(i as int));
                assert(all.take(i + 1).last() == entry@);
            }
            let steps = trace_bfs(entry, graph);
            assert(text::views(steps@).len() == steps@.len());
            if steps.len() >= MIN_PATH_STEPS {
                let keywords = extract_keywords(entry, &steps);
                let name = path_name(entry, &steps);
                let id = path_id(entry, &steps);
                let p = FlowPath { id, name, entry_key: entry.to_owned(), steps, keywords };
                let ghost before = path_views(paths@);
                assert(p@ =~= chain_from(*graph, entry@));
                paths.push(p);
                assert(path_views(paths@) =~= before.push(p@));
            }
            i += 1;
        }
        assert(all.take(i as int) =~= all);
        dedup_paths(&mut paths);
        FlowPathIndex { paths, built_at }
    }

    /// The chains of a project, worked out now.
    pub fn build(graph: &ProjectGraph) -> (r: Self)
        ensures
            graph.call_edges.names().len() == 0 ==> r.paths@ == Seq::<FlowPath>::empty(),
            graph.call_edges.names().len() > 0 ==> path_views(r.paths@) == project_chains(*graph),
    {
        let t: i64 = now();
        FlowPathIndex::build_at(graph, t)
    }
}

// ── Matching a task ──────────────────────────────────────────────────────────

/// The words of the names in a list.
pub open spec fn words_in(names: Seq<Seq<char>>) -> Seq<Seq<char>>
    decreases names.len(),
{
    if names.len() == 0 {
        Seq::empty()
    } else {
        words_in(names.drop_last()) + name_words(names.last(), Seq::empty())
    }
}

/// The words of three bytes and more.
pub open spec fn not_short(ws: Seq<Seq<char>>) -> Seq<Seq<char>>
    decreases ws.len(),
{
    if ws.len() == 0 {
        Seq::empty()
    } else if number::width(ws.last()) >= 3 {
        not_short(ws.drop_last()).push(ws.last())
    } else {
        not_short(ws.drop_last())
    }
}

/// What is left is of three bytes and more.
pub proof fn short_words_go(ws: Seq<Seq<char>>)
    ensures
        not_short(ws) == ws.filter(|w: Seq<char>| number::width(w) >= 3),
    decreases ws.len(),
{
    reveal(Seq::filter);
    if ws.len() > 0 {
        short_words_go(ws.drop_last());
    }
}

/// The words that a task and its files are matched by, each once.
pub open spec fn query(task: Seq<char>, files: Seq<Seq<char>>) -> Seq<Seq<char>> {
    distinct(
        not_short(
            words_in(pieces::words(task) + Seq::new(files.len(), |i: int| paths::stem(files[i]))),
        ),
    )
}

/// How a chain fits: its number, how many of the words it shares, and how
/// many it has.
pub open spec fn fit_of(i: int, p: PathView, q: Seq<Seq<char>>) -> (int, nat, nat) {
    (
        i,
        shared(q, p.keywords),
        if p.keywords.len() == 0 {
            1
        } else {
            p.keywords.len()
        },
    )
}

/// The chains that share a word, in their order.
pub open spec fn fits(ps: Seq<PathView>, q: Seq<Seq<char>>, n: int) -> Seq<(int, nat, nat)>
    decreases n,
{
    if n <= 0 {
        Seq::empty()
    } else {
        let f = fit_of(n - 1, ps[n - 1], q);
        if f.1 > 0 {
            fits(ps, q, n - 1).push(f)
        } else {
            fits(ps, q, n - 1)
        }
    }
}

/// Whether `times` the score of `b` is no more than the score of `a`. A
/// chain scores the shared words over the root of its number of words; the
/// squares are compared.
pub open spec fn scores(a: (int, nat, nat), times: nat, b: (int, nat, nat)) -> bool {
    a.1 * a.1 * b.2 >= times * times * (b.1 * b.1 * a.2)
}

pub open spec fn by_fit() -> spec_fn((int, nat, nat), (int, nat, nat)) -> bool {
    |a: (int, nat, nat), b: (int, nat, nat)| scores(a, 1, b)
}

/// Whether `a` scores at least half of what `top` does.
pub open spec fn half_of(a: (int, nat, nat), top: (int, nat, nat)) -> bool {
    4 * (a.1 * a.1 * top.2) >= top.1 * top.1 * a.2
}

/// Those of the first `n` that score at least half of what the first does.
pub open spec fn close_ones(fs: Seq<(int, nat, nat)>, n: int) -> Seq<int>
    decreases n,
{
    if n <= 0 {
        Seq::empty()
    } else if half_of(fs[n - 1], fs[0]) {
        close_ones(fs, n - 1).push(fs[n - 1].0)
    } else {
        close_ones(fs, n - 1)
    }
}

/// Whether `m` is how the task fits the chains.
pub open spec fn matched(ps: Seq<PathView>, q: Seq<Seq<char>>, m: PathMatch) -> bool {
    let fs = order::sorted_by(fits(ps, q, ps.len() as int), by_fit());
    if q.len() == 0 || fs.len() == 0 {
        m is Unmatched
    } else if fs.len() == 1 || scores(fs[0], 2, fs[1]) {
        m matches PathMatch::Clear(i) && i == fs[0].0
    } else {
        m matches PathMatch::Ambiguous(v) && Seq::new(v@.len(), |k: int| v@[k] as int)
            == close_ones(
            fs,
            if fs.len() <= 3 {
                fs.len() as int
            } else {
                3
            },
        )
    }
}


/// How many of the words of a task a chain has, and how many it has in all,
/// one at least.
pub open spec fn has_of(p: PathView, q: Seq<Seq<char>>) -> (nat, nat) {
    (
        q.filter(|w: Seq<char>| p.keywords.contains(w)).len(),
        if p.keywords.len() == 0 {
            1
        } else {
            p.keywords.len()
        },
    )
}

/// Whether `a` scores at least `n` tenths of what `b` does, where a score is
/// the number of shared words over the root of the number of words.
pub open spec fn tenths(a: (nat, nat), n: nat, b: (nat, nat)) -> bool {
    100 * (a.0 * a.0 * b.1) >= n * n * (b.0 * b.0 * a.1)
}

proof fn fits_all(ps: Seq<PathView>, q: Seq<Seq<char>>, n: int)
    requires
        0 <= n <= ps.len(),
    ensures
        ({
            let fs = fits(ps, q, n);
            &&& forall|k: int|
                0 <= k < fs.len() ==> {
                    let f = #[trigger] fs[k];
                    0 <= f.0 < n && f.1 > 0 && (f.1, f.2) == has_of(ps[f.0], q)
                }
            &&& forall|i: int|
                0 <= i < n && has_of(#[trigger] ps[i], q).0 > 0 ==> fs.contains(
                    (i, has_of(ps[i], q).0, has_of(ps[i], q).1),
                )
            &&& forall|j: int, k: int| 0 <= j < k < fs.len() ==> (#[trigger] fs[j]).0 < (#[trigger] fs[k]).0
        }),
    decreases n,
{
    if n > 0 {
        fits_all(ps, q, n - 1);
        let before = fits(ps, q, n - 1);
        let fs = fits(ps, q, n);
        shared_are_counted(q, ps[n - 1].keywords);
        let f = fit_of(n - 1, ps[n - 1], q);
        assert((f.1, f.2) == has_of(ps[n - 1], q));
        assert forall|i: int| 0 <= i < n && has_of(#[trigger] ps[i], q).0 > 0 implies fs.contains(
            (i, has_of(ps[i], q).0, has_of(ps[i], q).1),
        ) by {
            if i < n - 1 {
                let x = before.index_of((i, has_of(ps[i], q).0, has_of(ps[i], q).1));
                assert(fs[x] == before[x]);
            } else {
                assert(fs[before.len() as int] == f);
            }
        }
    }
}

spec fn by_fit_too() -> spec_fn((int, nat, nat), (int, nat, nat)) -> bool {
    |a: (int, nat, nat), b: (int, nat, nat)|
        {
            let x: nat = if a.2 == 0 {
                1
            } else {
                a.2
            };
            let y: nat = if b.2 == 0 {
                1
            } else {
                b.2
            };
            a.1 * a.1 * y >= b.1 * b.1 * x
        }
}

proof fn fit_goes_on(a: nat, x: nat, b: nat, y: nat, c: nat, z: nat)
    requires
        x > 0,
        y > 0,
        z > 0,
        a * y >= b * x,
        b * z >= c * y,
    ensures
        a * z >= c * x,
{
    assert(y * (a * z) >= y * (c * x)) by (nonlinear_arith)
        requires
            a * y >= b * x,
            b * z >= c * y,
            x > 0,
            z > 0,
    ;
    assert(a * z >= c * x) by (nonlinear_arith)
        requires
            y * (a * z) >= y * (c * x),
            y > 0,
    ;
}

proof fn fit_sorts()
    ensures
        order::sorts(by_fit_too()),
{
    let le = by_fit_too();
    assert forall|a: (int, nat, nat), b: (int, nat, nat), c: (int, nat, nat)| #[trigger]
        le(a, b) && #[trigger] le(b, c) implies le(a, c) by {
        let x: nat = if a.2 == 0 {
            1
        } else {
            a.2
        };
        let y: nat = if b.2 == 0 {
            1
        } else {
            b.2
        };
        let z: nat = if c.2 == 0 {
            1
        } else {
            c.2
        };
        fit_goes_on(a.1 * a.1, x, b.1 * b.1, y, c.1 * c.1, z);
    }
}

proof fn fits_in_order(ps: Seq<PathView>, q: Seq<Seq<char>>)
    ensures
        ({
            let raw = fits(ps, q, ps.len() as int);
            let fs = order::sorted_by(raw, by_fit());
            &&& fs.len() == raw.len()
            &&& fs.to_multiset() == raw.to_multiset()
            &&& forall|j: int, k: int|
                0 <= j < k < fs.len() ==> {
                    let a = #[trigger] fs[j];
                    let b = #[trigger] fs[k];
                    a.1 * a.1 * b.2 >= b.1 * b.1 * a.2
                }
        }),
{
    broadcast use vstd::seq_lib::group_to_multiset_ensures;

    let raw = fits(ps, q, ps.len() as int);
    let fs = order::sorted_by(raw, by_fit());
    fits_all(ps, q, ps.len() as int);
    let p = |t: (int, nat, nat)| t.2 > 0;
    let f = |t: (int, nat, nat)| t;
    assert forall|a: (int, nat, nat), b: (int, nat, nat)| p(a) && p(b) implies #[trigger] by_fit()(a, b)
        == by_fit_too()(f(a), f(b)) by {
        assert(1 * 1 * (b.1 * b.1 * a.2) == b.1 * b.1 * a.2) by (nonlinear_arith);
    }
    order::sorted_map(raw, p, f, by_fit(), by_fit_too());
    assert(raw.map_values(f) =~= raw);
    assert(fs.map_values(f) =~= fs);
    fit_sorts();
    order::sorted_is_sorted(raw, by_fit_too());
    order::sorted_is_sorted(raw, by_fit());
    assert forall|j: int, k: int| 0 <= j < k < fs.len() implies {
        let a = #[trigger] fs[j];
        let b = #[trigger] fs[k];
        a.1 * a.1 * b.2 >= b.1 * b.1 * a.2
    } by {
        assert(by_fit_too()(fs[j], fs[k]));
        in_raw(raw, fs, j);
        in_raw(raw, fs, k);
    }
}

proof fn in_raw(raw: Seq<(int, nat, nat)>, fs: Seq<(int, nat, nat)>, j: int)
    requires
        fs.to_multiset() == raw.to_multiset(),
        0 <= j < fs.len(),
    ensures
        raw.contains(fs[j]),
{
    broadcast use vstd::seq_lib::group_to_multiset_ensures;

    assert(fs.contains(fs[j]));
    assert(fs.to_multiset().count(fs[j]) > 0);
}

/// A task that has no words, or shares none with a chain, matches nothing,
/// and another does match.
pub proof fn shared_words_match(ps: Seq<PathView>, q: Seq<Seq<char>>, m: PathMatch)
    requires
        matched(ps, q, m),
    ensures
        m is Unmatched <==> forall|i: int| 0 <= i < ps.len() ==> has_of(#[trigger] ps[i], q).0 == 0,
{
    let n = ps.len() as int;
    let raw = fits(ps, q, n);
    fits_all(ps, q, n);
    fits_in_order(ps, q);
    if q.len() == 0 {
        reveal(Seq::filter);
        assert forall|i: int| 0 <= i < ps.len() implies has_of(#[trigger] ps[i], q).0 == 0 by {}
    } else if raw.len() > 0 {
        let f = raw[0];
        assert(has_of(ps[f.0], q).0 > 0);
    } else {
        assert forall|i: int| 0 <= i < ps.len() implies has_of(#[trigger] ps[i], q).0 == 0 by {
            if has_of(ps[i], q).0 > 0 {
                assert(raw.contains((i, has_of(ps[i], q).0, has_of(ps[i], q).1)));
            }
        }
    }
}

/// A task matches a chain clearly where it shares a word with it and no other
/// chain scores more than half as much.
pub proof fn clear_match_stands_out(ps: Seq<PathView>, q: Seq<Seq<char>>, m: PathMatch, j: int)
    requires
        matched(ps, q, m),
        m is Clear,
        0 <= j < ps.len(),
        j != m->Clear_0,
    ensures
        m->Clear_0 < ps.len(),
        has_of(ps[m->Clear_0 as int], q).0 > 0,
        tenths(has_of(ps[m->Clear_0 as int], q), 20, has_of(ps[j], q)),
{
    broadcast use vstd::seq_lib::group_to_multiset_ensures;

    let n = ps.len() as int;
    let raw = fits(ps, q, n);
    let fs = order::sorted_by(raw, by_fit());
    fits_all(ps, q, n);
    fits_in_order(ps, q);
    in_raw(raw, fs, 0);
    let a = fs[0];
    assert(has_of(ps[a.0], q) == (a.1, a.2));
    let b = has_of(ps[j], q);
    if b.0 > 0 {
        let t = (j, b.0, b.1);
        assert(raw.contains(t));
        assert(raw.to_multiset().count(t) > 0);
        assert(fs.contains(t));
        let k = fs.index_of(t);
        assert(k != 0);
        let c = fs[1];
        in_raw(raw, fs, 1);
        assert(c.2 > 0);
        assert(a.1 * a.1 * c.2 >= 4 * (c.1 * c.1 * a.2)) by {
            assert(2 * 2 * (c.1 * c.1 * a.2) == 4 * (c.1 * c.1 * a.2)) by (nonlinear_arith);
        }
        if k > 1 {
            assert(c.1 * c.1 * b.1 >= b.0 * b.0 * c.2);
        }
        assert(4 * (c.1 * c.1) * a.2 == 4 * (c.1 * c.1 * a.2)) by (nonlinear_arith);
        assert(4 * (c.1 * c.1) * b.1 >= 4 * (b.0 * b.0) * c.2) by (nonlinear_arith)
            requires
                c.1 * c.1 * b.1 >= b.0 * b.0 * c.2,
        ;
        fit_goes_on(a.1 * a.1, a.2, 4 * (c.1 * c.1), c.2, 4 * (b.0 * b.0), b.1);
        assert(4 * (b.0 * b.0) * a.2 == 4 * (b.0 * b.0 * a.2)) by (nonlinear_arith);
        assert(20 * 20 * (b.0 * b.0 * a.2) == 400 * (b.0 * b.0 * a.2)) by (nonlinear_arith);
    } else {
        assert(b.0 * b.0 * a.2 == 0) by (nonlinear_arith)
            requires
                b.0 == 0,
        ;
        assert(20 * 20 * (b.0 * b.0 * a.2) == 0);
        assert(a.1 * a.1 * b.1 >= 0) by (nonlinear_arith);
    }
}

proof fn close_ones_are_close(fs: Seq<(int, nat, nat)>, n: int, i: int)
    requires
        0 <= n <= fs.len(),
        close_ones(fs, n).contains(i),
    ensures
        exists|k: int| 0 <= k < n && (#[trigger] fs[k]).0 == i && half_of(fs[k], fs[0]),
    decreases n,
{
    if n > 0 {
        let c = close_ones(fs, n - 1);
        if c.contains(i) {
            close_ones_are_close(fs, n - 1, i);
        } else {
            let r = close_ones(fs, n);
            let x = r.index_of(i);
            if x < c.len() {
                assert(c[x] == i);
            }
            assert(fs[n - 1].0 == i);
        }
    }
}

/// Where a task matches several chains, each of them shares a word with it
/// and scores at least half of what any chain does; they are in the order of
/// their scores, the best first.
pub proof fn ambiguous_matches_are_close(
    ps: Seq<PathView>,
    q: Seq<Seq<char>>,
    m: PathMatch,
    x: int,
    j: int,
)
    requires
        matched(ps, q, m),
        m is Ambiguous,
        0 <= x < m->Ambiguous_0@.len(),
        0 <= j < ps.len(),
    ensures
        m->Ambiguous_0@[x] < ps.len(),
        has_of(ps[m->Ambiguous_0@[x] as int], q).0 > 0,
        tenths(has_of(ps[m->Ambiguous_0@[x] as int], q), 5, has_of(ps[j], q)),
{
    broadcast use vstd::seq_lib::group_to_multiset_ensures;

    let n = ps.len() as int;
    let raw = fits(ps, q, n);
    let fs = order::sorted_by(raw, by_fit());
    fits_all(ps, q, n);
    fits_in_order(ps, q);
    let top = if fs.len() <= 3 {
        fs.len() as int
    } else {
        3
    };
    let v = m->Ambiguous_0;
    let ids = Seq::new(v@.len(), |k: int| v@[k] as int);
    let i = v@[x] as int;
    assert(ids[x] == i);
    assert(ids.contains(i));
    close_ones_are_close(fs, top, i);
    let k = choose|k: int| 0 <= k < top && (#[trigger] fs[k]).0 == i && half_of(fs[k], fs[0]);
    in_raw(raw, fs, k);
    in_raw(raw, fs, 0);
    let a = fs[k];
    let t = fs[0];
    assert(has_of(ps[a.0], q) == (a.1, a.2));
    let b = has_of(ps[j], q);
    if b.0 > 0 {
        let u = (j, b.0, b.1);
        assert(raw.contains(u));
        assert(raw.to_multiset().count(u) > 0);
        assert(fs.contains(u));
        let y = fs.index_of(u);
        assert(y > 0 ==> t.1 * t.1 * b.1 >= b.0 * b.0 * t.2);
        assert(4 * (a.1 * a.1) * t.2 >= t.1 * t.1 * a.2) by (nonlinear_arith)
            requires
                4 * (a.1 * a.1 * t.2) >= t.1 * t.1 * a.2,
        ;
        if y == 0 {
            assert(t.1 * t.1 * b.1 >= b.0 * b.0 * t.2);
        }
        fit_goes_on(4 * (a.1 * a.1), a.2, t.1 * t.1, t.2, b.0 * b.0, b.1);
        assert(4 * (a.1 * a.1) * b.1 == 4 * (a.1 * a.1 * b.1)) by (nonlinear_arith);
        assert(5 * 5 * (b.0 * b.0 * a.2) == 25 * (b.0 * b.0 * a.2)) by (nonlinear_arith);
    } else {
        assert(b.0 * b.0 * a.2 == 0) by (nonlinear_arith)
            requires
                b.0 == 0,
        ;
        assert(5 * 5 * (b.0 * b.0 * a.2) == 0);
        assert(a.1 * a.1 * b.1 >= 0) by (nonlinear_arith);
    }
}

/// A task that fits no chain clearly fits two or three.
pub proof fn ambiguous_is_two_or_three(ps: Seq<PathView>, q: Seq<Seq<char>>, m: PathMatch)
    requires
        matched(ps, q, m),
        m is Ambiguous,
    ensures
        2 <= m->Ambiguous_0@.len() <= 3,
{
    let fs = order::sorted_by(fits(ps, q, ps.len() as int), by_fit());
    let n = if fs.len() <= 3 {
        fs.len() as int
    } else {
        3
    };
    let v = m->Ambiguous_0;
    let ids = Seq::new(v@.len(), |k: int| v@[k] as int);
    assert(ids.len() == v@.len());
    let a = fs[0];
    let b = fs[1];
    assert(half_of(a, a)) by (nonlinear_arith)
        requires
            half_of(a, a) == (4 * (a.1 * a.1 * a.2) >= a.1 * a.1 * a.2),
    ;
    assert(half_of(b, a)) by (nonlinear_arith)
        requires
            half_of(b, a) == (4 * (b.1 * b.1 * a.2) >= a.1 * a.1 * b.2),
            !(a.1 * a.1 * b.2 >= 2 * 2 * (b.1 * b.1 * a.2)),
    ;
    reveal_with_fuel(close_ones, 4);
    close_ones_len(fs, n);
}

proof fn close_ones_len(fs: Seq<(int, nat, nat)>, n: int)
    requires
        0 <= n,
    ensures
        close_ones(fs, n).len() <= n,
    decreases n,
{
    if n > 0 {
        close_ones_len(fs, n - 1);
    }
}

fn words_to_match(task: &str, files: &Vec<String>) -> (r: Vec<String>)
    ensures
        text::views(r@) == query(task@, text::views(files@)),
{
    let ws = words_of(task);
    let ghost wv = text::views(ws@);
    let ghost fv = text::views(files@);
    let ghost names = wv + Seq::new(fv.len(), |i: int| paths::stem(fv[i]));
    let mut all: Vec<String> = Vec::new();
    proof {
        text::views_empty();
        assert(names.take(0) =~= Seq::<Seq<char>>::empty());
    }
    let mut i: usize = 0;
    while i < ws.len()
        invariant
            i <= ws.len(),
            wv == text::views(ws@),
            names == wv + Seq::new(fv.len(), |i: int| paths::stem(fv[i])),
            text::views(all@) == words_in(names.take(i as int)),
        decreases ws.len() - i,
    {
        proof {
            assert(names.take(i + 1).drop_last() =~= names.take(i as int));
            assert(names.take(i + 1).last() == ws@[i as int]@);
        }
        let ghost before = text::views(all@);
        let mut more = split_identifier(ws[i].as_str());
        let ghost m = text::views(more@);
        all.append(&mut more);
        assert(text::views(all@) =~= before + m);
        i += 1;
    }
    let mut j: usize = 0;
    while j < files.len()
        invariant
            j <= files.len(),
            wv == text::views(ws@),
            wv.len() == ws.len(),
            fv == text::views(files@),
            names == wv + Seq::new(fv.len(), |i: int| paths::stem(fv[i])),
            text::views(all@) == words_in(names.take(ws.len() + j)),
        decreases files.len() - j,
    {
        proof {
            assert(names.take(ws.len() + j + 1).drop_last() =~= names.take(ws.len() + j));
            assert(names.take(ws.len() + j + 1).last() == paths::stem(files@[j as int]@));
        }
        let stem = stem_of(files[j].as_str());
        let ghost before = text::views(all@);
        let mut more = split_identifier(stem.as_str());
        let ghost m = text::views(more@);
        all.append(&mut more);
        assert(text::views(all@) =~= before + m);
        j += 1;
    }
    assert(names.take(ws.len() + j) =~= names);
    let ghost av = text::views(all@);
    let mut long: Vec<String> = Vec::new();
    let mut k: usize = 0;
    assert(av.take(0) =~= Seq::<Seq<char>>::empty());
    while k < all.len()
        invariant
            k <= all.len(),
            av == text::views(all@),
            text::views(long@) == not_short(av.take(k as int)),
        decreases all.len() - k,
    {
        assert(av.take(k + 1).drop_last() =~= av.take(k as int));
        assert(av.take(k + 1).last() == all@[k as int]@);
        if byte_len(all[k].as_str()) >= 3 {
            long.push(all[k].clone());
        }
        k += 1;
    }
    assert(av.take(k as int) =~= av);
    distinct_of(&long)
}

pub open spec fn fit_view(f: (usize, u64, u64)) -> (int, nat, nat) {
    (f.0 as int, f.1 as nat, f.2 as nat)
}

pub open spec fn fit_views(v: Seq<(usize, u64, u64)>) -> Seq<(int, nat, nat)> {
    Seq::new(v.len(), |i: int| fit_view(v[i]))
}

/// The value of a number in two parts, the second of 64 bits.
pub open spec fn wide(w: (u128, u64)) -> int {
    w.0 * 0x1_0000_0000_0000_0000 + w.1
}

fn product(o: u64, k: u64) -> (r: (u128, u64))
    ensures
        wide(r) == o * o * k,
{
    assert(o * o <= 0xffff_ffff_ffff_ffff * 0xffff_ffff_ffff_ffff) by (nonlinear_arith)
        requires
            o <= 0xffff_ffff_ffff_ffff,
    ;
    let oo: u128 = (o as u128) * (o as u128);
    let high: u128 = oo / 0x1_0000_0000_0000_0000;
    let low: u128 = oo % 0x1_0000_0000_0000_0000;
    assert(low * k <= 0xffff_ffff_ffff_ffff * 0xffff_ffff_ffff_ffff) by (nonlinear_arith)
        requires
            low <= 0xffff_ffff_ffff_ffff,
            k <= 0xffff_ffff_ffff_ffff,
    ;
    assert(high * k <= 0xffff_ffff_ffff_ffff * 0xffff_ffff_ffff_ffff) by (nonlinear_arith)
        requires
            high <= 0xffff_ffff_ffff_ffff,
            k <= 0xffff_ffff_ffff_ffff,
    ;
    let lk: u128 = low * (k as u128);
    let hk: u128 = high * (k as u128);
    assert(hk * 0x1_0000_0000_0000_0000 + lk == oo * k) by (nonlinear_arith)
        requires
            hk == high * k,
            lk == low * k,
            oo == high * 0x1_0000_0000_0000_0000 + low,
    ;
    (hk + lk / 0x1_0000_0000_0000_0000, (lk % 0x1_0000_0000_0000_0000) as u64)
}

fn not_less(a: (u128, u64), b: (u128, u64)) -> (r: bool)
    ensures
        r == (wide(a) >= wide(b)),
{
    a.0 > b.0 || (a.0 == b.0 && a.1 >= b.1)
}

/// A quarter of a number, and whether nothing is left over.
fn quarter(a: (u128, u64)) -> (r: ((u128, u64), bool))
    ensures
        wide(r.0) == wide(a) / 4,
        r.1 == (wide(a) % 4 == 0),
{
    let rest: u128 = (a.0 % 4) * 0x1_0000_0000_0000_0000 + a.1 as u128;
    ((a.0 / 4, (rest / 4) as u64), rest % 4 == 0)
}

impl FlowPathIndex {
    /// How a task, with the files given to it, fits the chains.
    pub fn match_task(&self, task: &str, attached_files: &Vec<String>) -> (m: PathMatch)
        ensures
            matched(path_views(self.paths@), query(task@, text::views(attached_files@)), m),
    {
        let ghost ps = path_views(self.paths@);
        let q = words_to_match(task, attached_files);
        let ghost qv = text::views(q@);
        assert(qv.len() == q@.len());
        if q.len() == 0 {
            return PathMatch::Unmatched;
        }
        let mut fs: Vec<(usize, u64, u64)> = Vec::new();
        let mut i: usize = 0;
        assert(fit_views(fs@) =~= Seq::<(int, nat, nat)>::empty());
        while i < self.paths.len()
            invariant
                i <= self.paths.len(),
                ps == path_views(self.paths@),
                qv == text::views(q@),
                fit_views(fs@) == fits(ps, qv, i as int),
            decreases self.paths.len() - i,
        {
            let p = &self.paths[i];
            assert(ps[i as int] == p@);
            assert(p@.keywords.len() == p.keywords@.len());
            let n: usize = count_shared(&q, &p.keywords);
            let k: usize = if p.keywords.len() == 0 {
                1
            } else {
                p.keywords.len()
            };
            if n > 0 {
                let ghost before = fit_views(fs@);
                fs.push((i, n as u64, k as u64));
                assert(fit_views(fs@) =~= before.push(fit_of(i as int, p@, qv)));
            }
            i += 1;
        }
        let ghost raw = fs@;
        let ghost rel = |a: (usize, u64, u64), b: (usize, u64, u64)|
            scores(fit_view(a), 1, fit_view(b));
        let le = |a: &(usize, u64, u64), b: &(usize, u64, u64)| -> (r: bool)
            ensures r == scores(fit_view(*a), 1, fit_view(*b))
        {
            not_less(product(a.1, b.2), product(b.1, a.2))
        };
        sort_by(&mut fs, le, Ghost(rel));
        let ghost goal = order::sorted_by(fits(ps, qv, ps.len() as int), by_fit());
        proof {
            let f = |x: (usize, u64, u64)| fit_view(x);
            let all = |x: (usize, u64, u64)| true;
            order::sorted_map(raw, all, f, rel, by_fit());
            assert(raw.map_values(f) =~= fit_views(raw));
            assert(fs@.map_values(f) =~= fit_views(fs@));
        }
        assert(fit_views(fs@) == goal);
        assert(goal.len() == fs@.len());
        if fs.len() == 0 {
            return PathMatch::Unmatched;
        }
        let top = fs[0];
        assert(goal[0] == fit_view(top));
        if fs.len() == 1 {
            return PathMatch::Clear(top.0);
        }
        assert(goal[1] == fit_view(fs@[1]));
        let first = product(top.1, fs[1].2);
        let second = product(fs[1].1, top.2);
        assert(scores(goal[0], 2, goal[1]) == (wide(first) >= 4 * wide(second))) by (nonlinear_arith)
            requires
                scores(goal[0], 2, goal[1]) == (wide(first) >= 2 * 2 * wide(second)),
        ;
        if not_less(quarter(first).0, second) {
            return PathMatch::Clear(top.0);
        }
        let mut out: Vec<usize> = Vec::new();
        let mut k: usize = 0;
        assert(Seq::new(out@.len(), |x: int| out@[x] as int) =~= Seq::<int>::empty());
        while k < fs.len() && k < 3
            invariant
                k <= fs.len(),
                k <= 3,
                goal == fit_views(fs@),
                goal[0] == fit_view(top),
                Seq::new(out@.len(), |x: int| out@[x] as int) == close_ones(goal, k as int),
            decreases fs.len() - k,
        {
            let f = fs[k];
            assert(goal[k as int] == fit_view(f));
            let own = product(f.1, top.2);
            let (least, even) = quarter(product(top.1, f.2));
            if not_less(own, least) && (even || !not_less(least, own)) {
                let ghost before = Seq::new(out@.len(), |x: int| out@[x] as int);
                out.push(f.0);
                assert(Seq::new(out@.len(), |x: int| out@[x] as int) =~= before.push(f.0 as int));
            }
            k += 1;
        }
        PathMatch::Ambiguous(out)
    }
}

// ── Chains to be read ────────────────────────────────────────────────────────

/// The first steps of a chain, numbered from `n` down.
pub open spec fn step_lines(steps: Seq<Seq<char>>, n: int) -> Seq<char>
    decreases n,
{
    if n <= 0 {
        Seq::empty()
    } else {
        step_lines(steps, n - 1) + "   step "@ + number::pad_left(number::decimal(n as nat), 2)
            + ": "@ + symbol_of(steps[n - 1]) + " ("@ + file_of(steps[n - 1]) + ")\n"@
    }
}

/// A chain with its first six steps.
pub open spec fn chain_summary(n: int, p: PathView) -> Seq<char> {
    let shown = if p.steps.len() <= 6 {
        p.steps.len() as int
    } else {
        6
    };
    number::decimal(n as nat) + ". "@ + p.name + " ("@ + number::decimal(p.steps.len())
        + " steps)\n   entry:    "@ + p.entry_key + "\n"@ + step_lines(p.steps, shown) + (
    if p.steps.len() > 6 {
        "   ... +"@ + number::decimal((p.steps.len() - 6) as nat) + " more\n"@
    } else {
        Seq::empty()
    }) + "   keywords: "@ + pieces::join(p.keywords, ", "@) + "\n\n"@
}

pub open spec fn chain_summaries(ps: Seq<PathView>, n: int) -> Seq<char>
    decreases n,
{
    if n <= 0 {
        Seq::empty()
    } else {
        chain_summaries(ps, n - 1) + chain_summary(n, ps[n - 1])
    }
}

fn show_chain(n: usize, p: &FlowPath) -> (out: String)
    ensures
        out@ == chain_summary(n as int, p@),
{
    let ghost sv = text::views(p.steps@);
    assert(sv.len() == p.steps@.len());
    let mut out = decimal_usize(n);
    out.append(". ");
    out.append(p.name.as_str());
    out.append(" (");
    out.append(decimal_usize(p.steps.len()).as_str());
    out.append(" steps)\n   entry:    ");
    out.append(p.entry_key.as_str());
    out.append("\n");
    let mut body = String::new();
    let mut i: usize = 0;
    while i < p.steps.len() && i < 6
        invariant
            i <= p.steps.len(),
            i <= 6,
            sv == text::views(p.steps@),
            body@ == step_lines(sv, i as int),
        decreases p.steps.len() - i,
    {
        let step = p.steps[i].as_str();
        assert(sv[i as int] == step@);
        body.append("   step ");
        body.append(padded_left(decimal_usize(i + 1).as_str(), 2).as_str());
        body.append(": ");
        body.append(sym_name(step).as_str());
        body.append(" (");
        body.append(file_name(step).as_str());
        body.append(")\n");
        i += 1;
    }
    out.append(body.as_str());
    let ghost base = out@;
    if p.steps.len() > 6 {
        let mut more = "   ... +".to_owned();
        more.append(decimal_usize(p.steps.len() - 6).as_str());
        more.append(" more\n");
        out.append(more.as_str());
    } else {
        assert(base =~= base + Seq::<char>::empty());
    }
    out.append("   keywords: ");
    out.append(join_with(&p.keywords, ", ").as_str());
    out.append("\n\n");
    out
}

impl FlowPathIndex {
    /// All chains, to be read.
    pub fn _summary(&self) -> (r: String)
        ensures
            r@ == (if self.paths@.len() == 0 {
                "No flow paths built."@
            } else {
                number::decimal(self.paths@.len()) + " flow paths\n\n"@ + chain_summaries(
                    path_views(self.paths@),
                    self.paths@.len() as int,
                )
            }),
    {
        if self.paths.len() == 0 {
            return "No flow paths built.".to_owned();
        }
        let ghost ps = path_views(self.paths@);
        let mut out = decimal_usize(self.paths.len());
        out.append(" flow paths\n\n");
        let mut body = String::new();
        let mut i: usize = 0;
        while i < self.paths.len()
            invariant
                i <= self.paths.len(),
                ps == path_views(self.paths@),
                body@ == chain_summaries(ps, i as int),
            decreases self.paths.len() - i,
        {
            assert(ps[i as int] == self.paths@[i as int]@);
            body.append(show_chain(i + 1, &self.paths[i]).as_str());
            i += 1;
        }
        out.append(body.as_str());
        out
    }
}

/// A symbol's signature, where its body is not shown.
pub open spec fn signature_block(s: index::SymbolView) -> Seq<char> {
    match s.signature {
        Some(sig) => "```rust\n"@ + index::label(s.kind) + " "@ + s.name + sig
            + " { … }\n```\n"@,
        None => "*"@ + index::label(s.kind) + " `"@ + s.name + "` — signature not indexed*\n"@,
    }
}

/// A symbol's body out of its file, or its signature where there is none.
pub open spec fn body_block(s: index::SymbolView, content: Option<Seq<char>>) -> Seq<char> {
    match content {
        Some(c) => {
            let ls = pieces::lines(c);
            let start = if s.line == 0 {
                0
            } else {
                s.line - 1
            };
            let end = if s.end_line <= ls.len() {
                s.end_line
            } else {
                ls.len() as int
            };
            if start < end {
                "```rust\n"@ + pieces::join(ls.subrange(start, end), "\n"@) + "\n```\n"@
            } else {
                signature_block(s)
            }
        },
        None => signature_block(s),
    }
}

/// The first symbol of a key.
pub open spec fn symbol_at_key(symbols: Seq<index::SymbolView>, key: Seq<char>) -> Option<
    index::SymbolView,
>
    decreases symbols.len(),
{
    if symbols.len() == 0 {
        None
    } else if key_of(symbols[0].file, symbols[0].name) == key {
        Some(symbols[0])
    } else {
        symbol_at_key(symbols.skip(1), key)
    }
}

pub open spec fn text_at(m: Map<Seq<char>, String>, k: Seq<char>) -> Option<Seq<char>> {
    if m.dom().contains(k) {
        Some(m[k]@)
    } else {
        None
    }
}

/// What is shown of a symbol: the first with its body, the next two with
/// it where it is short, the others with their signature.
pub open spec fn symbol_block(
    depth: int,
    s: index::SymbolView,
    contents: Map<Seq<char>, String>,
) -> Seq<char> {
    let lines = (if s.end_line >= s.line {
        s.end_line - s.line
    } else {
        0
    }) + 1;
    "## `"@ + s.name + "` ("@ + s.file + ":"@ + number::decimal(s.line as nat) + ")\n"@ + (
    if depth == 0 || (depth <= 2 && lines <= 30) {
        body_block(s, text_at(contents, s.file))
    } else {
        signature_block(s)
    }) + "\n"@
}

/// What is shown of the first `n` symbols of a chain.
pub open spec fn chain_blocks(
    keys: Seq<Seq<char>>,
    symbols: Seq<index::SymbolView>,
    contents: Map<Seq<char>, String>,
    n: int,
) -> Seq<char>
    decreases n,
{
    if n <= 0 {
        Seq::empty()
    } else {
        match symbol_at_key(symbols, keys[n - 1]) {
            Some(s) => chain_blocks(keys, symbols, contents, n - 1) + symbol_block(
                n - 1,
                s,
                contents,
            ),
            None => chain_blocks(keys, symbols, contents, n - 1),
        }
    }
}

fn find_symbol<'a>(symbols: &'a Vec<Symbol>, key: &str) -> (r: Option<&'a Symbol>)
    ensures
        match r {
            Some(s) => symbol_at_key(index::symbol_views(symbols@), key@) == Some(s@),
            None => symbol_at_key(index::symbol_views(symbols@), key@) is None,
        },
{
    let ghost sv = index::symbol_views(symbols@);
    let mut i: usize = 0;
    assert(sv.skip(0) =~= sv);
    while i < symbols.len()
        invariant
            i <= symbols.len(),
            sv == index::symbol_views(symbols@),
            symbol_at_key(sv, key@) == symbol_at_key(sv.skip(i as int), key@),
        decreases symbols.len() - i,
    {
        assert(sv.skip(i as int)[0] == symbols@[i as int]@);
        let k = make_key(symbols[i].file.as_str(), symbols[i].name.as_str());
        if same(k.as_str(), key) {
            return Some(&symbols[i]);
        }
        assert(sv.skip(i as int).skip(1) =~= sv.skip(i + 1));
        i += 1;
    }
    None
}

fn show_signature(s: &Symbol) -> (r: String)
    ensures
        r@ == signature_block(s@),
{
    match &s.signature {
        Some(sig) => {
            let mut t = "```rust\n".to_owned();
            t.append(s.kind.label());
            t.append(" ");
            t.append(s.name.as_str());
            t.append(sig.as_str());
            t.append(" { … }\n```\n");
            t
        },
        None => {
            let mut t = "*".to_owned();
            t.append(s.kind.label());
            t.append(" `");
            t.append(s.name.as_str());
            t.append("` — signature not indexed*\n");
            t
        },
    }
}

fn show_body(s: &Symbol, content: Option<&String>) -> (r: String)
    ensures
        r@ == body_block(
            s@,
            match content {
                Some(c) => Some(c@),
                None => None,
            },
        ),
{
    match content {
        Some(c) => {
            let ls = lines_of(c.as_str());
            let ghost lv = text::views(ls@);
            assert(lv.len() == ls@.len());
            let start: usize = if s.line == 0 {
                0
            } else {
                s.line - 1
            };
            let end: usize = if s.end_line <= ls.len() {
                s.end_line
            } else {
                ls.len()
            };
            if start < end {
                let mut some: Vec<String> = Vec::new();
                let mut i: usize = start;
                while i < end
                    invariant
                        start <= i <= end <= ls.len(),
                        lv == text::views(ls@),
                        some.len() == i - start,
                        forall|k: int| 0 <= k < i - start ==> (#[trigger] some@[k])@ == lv[start + k],
                    decreases end - i,
                {
                    some.push(ls[i].clone());
                    i += 1;
                }
                assert(text::views(some@) =~= lv.subrange(start as int, end as int));
                let mut t = "```rust\n".to_owned();
                t.append(join_with(&some, "\n").as_str());
                t.append("\n```\n");
                t
            } else {
                show_signature(s)
            }
        },
        None => show_signature(s),
    }
}

/// The source along a chain, near symbols in full: to be put before a task.
/// The files' contents are given; one that is missing could not be read.
pub fn build_path_context(path: &FlowPath, graph: &ProjectGraph, contents: &NameMap<String>) -> (r:
    String)
    ensures
        r@ == "# Relevant call chain: "@ + path.name@ + "\n\n"@ + chain_blocks(
            seq![path.entry_key@] + text::views(path.steps@),
            index::symbol_views(graph.symbols@),
            contents@,
            path.steps@.len() as int + 1,
        ),
{
    let mut out = "# Relevant call chain: ".to_owned();
    out.append(path.name.as_str());
    out.append("\n\n");
    let keys = path.all_keys();
    let ghost kv = text::views(keys@);
    let ghost sv = index::symbol_views(graph.symbols@);
    assert(kv.len() == keys@.len());
    let mut body = String::new();
    let mut depth: usize = 0;
    while depth < keys.len()
        invariant
            depth <= keys.len(),
            kv == text::views(keys@),
            sv == index::symbol_views(graph.symbols@),
            body@ == chain_blocks(kv, sv, contents@, depth as int),
        decreases keys.len() - depth,
    {
        assert(kv[depth as int] == keys@[depth as int]@);
        match find_symbol(&graph.symbols, keys[depth].as_str()) {
            Some(s) => {
                let extra: usize = s.end_line.saturating_sub(s.line);
                let mut block = "## `".to_owned();
                block.append(s.name.as_str());
                block.append("` (");
                block.append(s.file.as_str());
                block.append(":");
                block.append(decimal_usize(s.line).as_str());
                block.append(")\n");
                if depth == 0 || (depth <= 2 && extra < 30) {
                    block.append(show_body(s, contents.get(s.file.as_str())).as_str());
                } else {
                    block.append(show_signature(s).as_str());
                }
                block.append("\n");
                body.append(block.as_str());
            },
            None => {},
        }
        depth += 1;
    }
    out.append(body.as_str());
    out
}

// ── What is shown of a chain ─────────────────────────────────────────────────

proof fn key_words_hold(keys: Seq<Seq<char>>, w: Seq<char>)
    ensures
        key_words(keys).contains(w) <==> number::width(w) >= 3 && !common_words().contains(w)
            && exists|i: int|
            0 <= i < keys.len() && name_words(symbol_of(#[trigger] keys[i]), Seq::empty()).contains(w),
    decreases keys.len(),
{
    let good = |x: Seq<char>| number::width(x) >= 3 && !common_words().contains(x);
    if keys.len() > 0 {
        let t = keys.drop_last();
        let n = keys.len() - 1;
        key_words_hold(t, w);
        let ws = name_words(symbol_of(keys.last()), Seq::empty());
        telling_words_are_rare(ws);
        let a = key_words(t);
        let b = telling_words(ws);
        let r = key_words(keys);
        assert(r == a + b);
        assert(keys[n] == keys.last());
        if a.contains(w) {
            let i = a.index_of(w);
            assert(r[i] == w);
            let k = choose|k: int|
                0 <= k < t.len() && name_words(symbol_of(#[trigger] t[k]), Seq::empty()).contains(w);
            assert(keys[k] == t[k]);
        }
        if b.contains(w) {
            let i = b.index_of(w);
            assert(r[a.len() + i] == w);
            ws.lemma_filter_contains_rev(good, w);
            ws.lemma_filter_pred(good, i);
        }
        if r.contains(w) {
            let i = r.index_of(w);
            if i < a.len() {
                assert(a[i] == w);
            } else {
                assert(b[i - a.len()] == w);
            }
        }
        if good(w) && ws.contains(w) {
            let i = ws.index_of(w);
            ws.lemma_filter_contains(good, i);
        }
        if exists|i: int|
            0 <= i < keys.len() && name_words(symbol_of(#[trigger] keys[i]), Seq::empty()).contains(
                w,
            ) {
            let k = choose|k: int|
                0 <= k < keys.len() && name_words(
                    symbol_of(#[trigger] keys[k]),
                    Seq::empty(),
                ).contains(w);
            if k < n {
                assert(t[k] == keys[k]);
            }
        }
    }
}

/// The words of a chain are the telling words of the names of its symbols, the
/// first one's among them: each of them, once, and in order.
pub proof fn chain_is_known_by_its_words(entry: Seq<char>, steps: Seq<Seq<char>>, w: Seq<char>)
    ensures
        chain_words(entry, steps).no_duplicates(),
        order::in_order(chain_words(entry, steps), order::by_chars()),
        chain_words(entry, steps).contains(w) <==> number::width(w) >= 3 && !common_words().contains(w)
            && (name_words(symbol_of(entry), Seq::empty()).contains(w) || exists|i: int|
            0 <= i < steps.len() && name_words(symbol_of(#[trigger] steps[i]), Seq::empty()).contains(
                w,
            )),
{
    let keys = seq![entry] + steps;
    let ks = key_words(keys);
    let d = distinct(ks);
    key_words_hold(keys, w);
    distinct_is_distinct(ks);
    order::by_chars_sorts();
    order::sorted_is_sorted(d, order::by_chars());
    order::sorted_same_items(d, order::by_chars());
    let r = chain_words(entry, steps);
    d.lemma_multiset_has_no_duplicates();
    r.lemma_multiset_has_no_duplicates_conv();
    assert(r.contains(w) == d.contains(w));
    assert(d.contains(w) == ks.contains(w));
    assert(keys[0] == entry);
    let has = |k: Seq<char>| name_words(symbol_of(k), Seq::empty()).contains(w);
    if exists|i: int| 0 <= i < keys.len() && has(#[trigger] keys[i]) {
        let i = choose|i: int| 0 <= i < keys.len() && has(#[trigger] keys[i]);
        if i > 0 {
            assert(steps[i - 1] == keys[i]);
        }
    }
    if exists|i: int| 0 <= i < steps.len() && has(#[trigger] steps[i]) {
        let i = choose|i: int| 0 <= i < steps.len() && has(#[trigger] steps[i]);
        assert(keys[i + 1] == steps[i]);
    }
}

/// A chain is named after its first and its last symbol.
pub proof fn chain_is_named_by_its_ends(
    file: Seq<char>,
    name: Seq<char>,
    steps: Seq<Seq<char>>,
    last_file: Seq<char>,
    last: Seq<char>,
)
    requires
        !file.contains(':'),
        !name.contains(':'),
        !last_file.contains(':'),
        !last.contains(':'),
    ensures
        chain_name(file + "::"@ + name, Seq::empty()) == name,
        chain_name(file + "::"@ + name, steps.push(last_file + "::"@ + last)) == name + " → "@ + last,
{
    key_parts(file, name);
    key_parts(last_file, last);
    assert(steps.push(last_file + "::"@ + last).last() == last_file + "::"@ + last);
}

/// A key leads to the first symbol of its file and its name.
pub proof fn key_leads_to_its_symbol(symbols: Seq<index::SymbolView>, key: Seq<char>, i: int)
    requires
        0 <= i <= symbols.len(),
        forall|k: int|
            0 <= k < i ==> (#[trigger] symbols[k]).file + "::"@ + symbols[k].name != key,
    ensures
        i == symbols.len() ==> symbol_at_key(symbols, key) is None,
        i < symbols.len() && symbols[i].file + "::"@ + symbols[i].name == key ==> symbol_at_key(
            symbols,
            key,
        ) == Some(symbols[i]),
    decreases symbols.len(),
{
    if i > 0 {
        let t = symbols.skip(1);
        assert forall|k: int| 0 <= k < i - 1 implies (#[trigger] t[k]).file + "::"@ + t[k].name != key by {
            assert(t[k] == symbols[k + 1]);
        }
        key_leads_to_its_symbol(t, key, i - 1);
        assert(symbols[0].file + "::"@ + symbols[0].name != key);
        if i < symbols.len() {
            assert(t[i - 1] == symbols[i]);
        }
    }
}

/// A symbol is shown with its lines, from its first to its last, where it is
/// the first of the chain or one of the next two and short; else with its
/// signature.
pub proof fn near_symbols_are_shown_whole(
    depth: int,
    s: index::SymbolView,
    contents: Map<Seq<char>, String>,
)
    requires
        0 <= depth,
        contents.dom().contains(s.file),
        1 <= s.line <= s.end_line <= pieces::lines(contents[s.file]@).len(),
    ensures
        ({
            let body = "```rust\n"@ + pieces::join(
                pieces::lines(contents[s.file]@).subrange(s.line - 1, s.end_line),
                "\n"@,
            ) + "\n```\n"@;
            let head = "## `"@ + s.name + "` ("@ + s.file + ":"@ + number::decimal(s.line as nat)
                + ")\n"@;
            let near = depth == 0 || (depth <= 2 && s.end_line - s.line < 30);
            &&& near ==> symbol_block(depth, s, contents) == head + body + "\n"@
            &&& !near ==> symbol_block(depth, s, contents) == head + signature_block(s) + "\n"@
        }),
{
}

proof fn words_are_in(names: Seq<Seq<char>>, w: Seq<char>)
    ensures
        words_in(names).contains(w) <==> exists|i: int|
            0 <= i < names.len() && name_words(#[trigger] names[i], Seq::empty()).contains(w),
    decreases names.len(),
{
    if names.len() > 0 {
        let t = names.drop_last();
        let n = names.len() - 1;
        words_are_in(t, w);
        let a = words_in(t);
        let b = name_words(names.last(), Seq::empty());
        let r = words_in(names);
        assert(r == a + b);
        assert(names[n] == names.last());
        if a.contains(w) {
            let i = a.index_of(w);
            assert(r[i] == w);
            let k = choose|k: int|
                0 <= k < t.len() && name_words(#[trigger] t[k], Seq::empty()).contains(w);
            assert(names[k] == t[k]);
        }
        if b.contains(w) {
            let i = b.index_of(w);
            assert(r[a.len() + i] == w);
        }
        if r.contains(w) {
            let i = r.index_of(w);
            if i < a.len() {
                assert(a[i] == w);
            } else {
                assert(b[i - a.len()] == w);
            }
        }
        if exists|i: int|
            0 <= i < names.len() && name_words(#[trigger] names[i], Seq::empty()).contains(w) {
            let k = choose|k: int|
                0 <= k < names.len() && name_words(#[trigger] names[k], Seq::empty()).contains(w);
            if k < n {
                assert(t[k] == names[k]);
            }
        }
    }
}

/// A task is matched by the words of its own words and of the stems of its
/// files, of three bytes and more, each once.
pub proof fn task_is_matched_by_its_words(task: Seq<char>, files: Seq<Seq<char>>, w: Seq<char>)
    ensures
        query(task, files).no_duplicates(),
        query(task, files).contains(w) <==> number::width(w) >= 3 && ((exists|i: int|
            0 <= i < pieces::words(task).len() && name_words(
                #[trigger] pieces::words(task)[i],
                Seq::empty(),
            ).contains(w)) || (exists|i: int|
            0 <= i < files.len() && name_words(
                paths::stem(#[trigger] files[i]),
                Seq::empty(),
            ).contains(w))),
{
    let ts = pieces::words(task);
    let stems = Seq::new(files.len(), |i: int| paths::stem(files[i]));
    let names = ts + stems;
    let all = words_in(names);
    let long = not_short(all);
    let p = |x: Seq<char>| number::width(x) >= 3;
    words_are_in(names, w);
    short_words_go(all);
    distinct_is_distinct(long);
    assert(query(task, files).contains(w) == long.contains(w));
    if long.contains(w) {
        let i = long.index_of(w);
        all.lemma_filter_pred(p, i);
        all.lemma_filter_contains_rev(p, w);
    }
    if all.contains(w) && number::width(w) >= 3 {
        let i = all.index_of(w);
        all.lemma_filter_contains(p, i);
    }
    let has = |x: Seq<char>| name_words(x, Seq::empty()).contains(w);
    if exists|i: int| 0 <= i < names.len() && has(#[trigger] names[i]) {
        let i = choose|i: int| 0 <= i < names.len() && has(#[trigger] names[i]);
        if i < ts.len() {
            assert(ts[i] == names[i]);
        } else {
            let k = i - ts.len();
            assert(stems[k] == names[i]);
            assert(has(paths::stem(files[k])));
        }
    }
    if exists|i: int| 0 <= i < ts.len() && has(#[trigger] ts[i]) {
        let i = choose|i: int| 0 <= i < ts.len() && has(#[trigger] ts[i]);
        assert(names[i] == ts[i]);
    }
    if exists|i: int| 0 <= i < files.len() && has(paths::stem(#[trigger] files[i])) {
        let i = choose|i: int| 0 <= i < files.len() && has(paths::stem(#[trigger] files[i]));
        assert(names[ts.len() + i] == stems[i]);
    }
}

proof fn steps_are_told(steps: Seq<Seq<char>>, n: int, k: int)
    requires
        0 <= k < n <= steps.len(),
    ensures
        text::contains(
            step_lines(steps, n),
            ": "@ + symbol_of(steps[k]) + " ("@ + file_of(steps[k]) + ")\n"@,
        ),
    decreases n,
{
    let s = step_lines(steps, n);
    let front = step_lines(steps, n - 1);
    let head = "   step "@ + number::pad_left(number::decimal(n as nat), 2);
    let told = ": "@ + symbol_of(steps[n - 1]) + " ("@ + file_of(steps[n - 1]) + ")\n"@;
    let none = Seq::<char>::empty();
    assert(s =~= front + head + told + none);
    text::part_is_held(front + head, told, none);
    if k < n - 1 {
        steps_are_told(steps, n - 1, k);
        assert(s =~= none + front + (head + told));
        text::part_is_held(none, front, head + told);
        text::part_of_part(
            s,
            front,
            ": "@ + symbol_of(steps[k]) + " ("@ + file_of(steps[k]) + ")\n"@,
        );
    }
}

/// A chain is told by each of its first six steps, and by how many more it
/// has.
pub proof fn first_six_steps_are_told(n: int, p: PathView, k: int)
    requires
        0 <= k < p.steps.len(),
        k < 6,
    ensures
        text::contains(
            chain_summary(n, p),
            ": "@ + symbol_of(p.steps[k]) + " ("@ + file_of(p.steps[k]) + ")\n"@,
        ),
        p.steps.len() > 6 ==> text::contains(
            chain_summary(n, p),
            "   ... +"@ + number::decimal((p.steps.len() - 6) as nat) + " more\n"@,
        ),
{
    let shown = if p.steps.len() <= 6 {
        p.steps.len() as int
    } else {
        6
    };
    let head = number::decimal(n as nat) + ". "@ + p.name + " ("@ + number::decimal(p.steps.len())
        + " steps)\n   entry:    "@ + p.entry_key + "\n"@;
    let body = step_lines(p.steps, shown);
    let more = if p.steps.len() > 6 {
        "   ... +"@ + number::decimal((p.steps.len() - 6) as nat) + " more\n"@
    } else {
        Seq::empty()
    };
    let end = "   keywords: "@ + pieces::join(p.keywords, ", "@) + "\n\n"@;
    let s = chain_summary(n, p);
    assert(s =~= head + body + (more + end));
    steps_are_told(p.steps, shown, k);
    text::part_is_held(head, body, more + end);
    text::part_of_part(
        s,
        body,
        ": "@ + symbol_of(p.steps[k]) + " ("@ + file_of(p.steps[k]) + ")\n"@,
    );
    assert(s =~= (head + body) + more + end);
    text::part_is_held(head + body, more, end);
}

} // verus!
