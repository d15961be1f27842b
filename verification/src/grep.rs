//! Searches that the index can answer.

use crate::index;
use crate::index::{Symbol, SymbolView};
use crate::json::{Json, JsonView};
use crate::number;
use crate::number::{byte_len, decimal_usize};
use crate::pie;
use crate::pie::ProjectGraph;
use crate::pieces;
use crate::pieces::{join_with, lines_of, words_of};
use crate::text;
use crate::text::{begins_with, count, finishes_with, holds, one_of, same, set_has, to_chars, trim_by, trimmed, CharSet};
use vstd::prelude::*;

verus! {

broadcast use crate::text::views_push;

// ── The command ──────────────────────────────────────────────────────────────

/// Flags that are followed by a value.
pub open spec fn flags_with_value() -> Seq<Seq<char>> {
    seq!["-e"@, "-f"@, "--include"@, "--exclude"@, "--type"@, "-t"@, "-g"@]
}

/// The first word that is no flag, without the quotes round it.
pub open spec fn first_argument(ws: Seq<Seq<char>>) -> Option<Seq<char>>
    decreases ws.len(),
{
    if ws.len() == 0 {
        None
    } else if text::begins(ws[0], "-"@) {
        if flags_with_value().contains(ws[0]) && ws.len() > 1 {
            first_argument(ws.skip(2))
        } else {
            first_argument(ws.skip(1))
        }
    } else {
        let pat = text::trim_set(ws[0], CharSet::OneOf("\"'"));
        if pat.len() > 0 {
            Some(pat)
        } else {
            first_argument(ws.skip(1))
        }
    }
}

/// What a command of `grep` or `rg` searches for.
pub open spec fn grep_pattern(command: Seq<char>) -> Option<Seq<char>> {
    let ws = pieces::words(command);
    if ws.len() > 0 && (ws[0] == "grep"@ || ws[0] == "rg"@) {
        first_argument(ws.skip(1))
    } else {
        None
    }
}

/// What a command of `grep` or `rg` searches for.
pub fn extract_grep_pattern(command: &str) -> (r: Option<String>)
    ensures
        text::opt_text(r) == grep_pattern(command@),
{
    let ws = words_of(command);
    let ghost wv = text::views(ws@);
    assert(wv.len() == ws@.len());
    if ws.len() == 0 {
        return None;
    }
    assert(wv[0] == ws@[0]@);
    if !same(ws[0].as_str(), "grep") && !same(ws[0].as_str(), "rg") {
        return None;
    }
    let valued = ["-e", "-f", "--include", "--exclude", "--type", "-t", "-g"];
    assert(text::texts(valued@) =~= flags_with_value());
    let mut i: usize = 1;
    while i < ws.len()
        invariant
            1 <= i <= ws.len(),
            wv == text::views(ws@),
            text::texts(valued@) == flags_with_value(),
            first_argument(wv.skip(1)) == first_argument(wv.skip(i as int)),
            grep_pattern(command@) == first_argument(wv.skip(1)),
        decreases ws.len() - i,
    {
        let tok = ws[i].as_str();
        assert(wv.skip(i as int)[0] == tok@);
        assert(wv.skip(i as int).skip(1) =~= wv.skip(i + 1));
        if begins_with(tok, "-") {
            if one_of(tok, &valued) && i + 1 < ws.len() {
                assert(wv.skip(i as int).skip(2) =~= wv.skip(i + 2));
                i += 2;
            } else {
                i += 1;
            }
        } else {
            let pat = trim_by(tok, CharSet::OneOf("\"'"));
            if count(pat.as_str()) > 0 {
                return Some(pat);
            }
            i += 1;
        }
    }
    assert(wv.skip(i as int) =~= Seq::<Seq<char>>::empty());
    None
}

pub open spec fn source_endings() -> Seq<Seq<char>> {
    seq![".rs"@, ".ts"@, ".tsx"@, ".js"@, ".py"@, ".go"@]
}

/// Whether a word has the ending of a source file.
pub open spec fn names_source(w: Seq<char>) -> bool {
    exists|i: int| 0 <= i < 6 && text::ends(w, #[trigger] source_endings()[i])
}

/// The first of the words that names a file. None where a word before it
/// names a directory or many files. `seen` is whether the pattern has come.
pub open spec fn file_argument(ws: Seq<Seq<char>>, seen: bool) -> Option<Seq<char>>
    decreases ws.len(),
{
    if ws.len() == 0 {
        None
    } else if text::begins(ws[0], "-"@) {
        file_argument(ws.skip(1), seen)
    } else if !seen {
        file_argument(ws.skip(1), true)
    } else if text::contains(ws[0], "*"@) || text::ends(ws[0], "/"@) {
        None
    } else if names_source(ws[0]) || text::contains(ws[0], "/"@) {
        Some(ws[0])
    } else {
        file_argument(ws.skip(1), seen)
    }
}

/// The file that a command searches, if it is one.
pub open spec fn grep_target(command: Seq<char>) -> Option<Seq<char>> {
    let ws = pieces::words(command);
    if ws.len() > 0 {
        file_argument(ws.skip(1), false)
    } else {
        None
    }
}

fn has_source_ending(w: &str) -> (r: bool)
    ensures
        r == names_source(w@),
{
    let ghost es = source_endings();
    assert(es[0] == ".rs"@ && es[1] == ".ts"@ && es[2] == ".tsx"@ && es[3] == ".js"@ && es[4]
        == ".py"@ && es[5] == ".go"@);
    finishes_with(w, ".rs") || finishes_with(w, ".ts") || finishes_with(w, ".tsx")
        || finishes_with(w, ".js") || finishes_with(w, ".py") || finishes_with(w, ".go")
}

/// The file that a command searches, if it is one.
pub fn extract_grep_target_file(command: &str) -> (r: Option<String>)
    ensures
        text::opt_text(r) == grep_target(command@),
{
    let ws = words_of(command);
    let ghost wv = text::views(ws@);
    assert(wv.len() == ws@.len());
    if ws.len() == 0 {
        return None;
    }
    let mut seen = false;
    let mut i: usize = 1;
    while i < ws.len()
        invariant
            1 <= i <= ws.len(),
            wv == text::views(ws@),
            grep_target(command@) == file_argument(wv.skip(i as int), seen),
        decreases ws.len() - i,
    {
        let tok = ws[i].as_str();
        assert(wv.skip(i as int)[0] == tok@);
        assert(wv.skip(i as int).skip(1) =~= wv.skip(i + 1));
        if !begins_with(tok, "-") {
            if !seen {
                seen = true;
            } else if holds(tok, "*") || finishes_with(tok, "/") {
                return None;
            } else if has_source_ending(tok) || holds(tok, "/") {
                return Some(tok.to_owned());
            }
        }
        i += 1;
    }
    assert(wv.skip(i as int) =~= Seq::<Seq<char>>::empty());
    None
}

// ── The answer ───────────────────────────────────────────────────────────────

pub const SPECIAL: &'static str = ".*+?[](){}\\^$|:";

/// Whether a pattern stands for itself alone.
pub open spec fn plain_word(p: Seq<char>) -> bool {
    &&& forall|i: int| 0 <= i < p.len() ==> !text::in_set(CharSet::OneOf(SPECIAL), #[trigger] p[i])
    &&& number::width(p) >= 2
}

fn is_plain_word(p: &str) -> (r: bool)
    ensures
        r == plain_word(p@),
{
    let v = to_chars(p);
    let mut i: usize = 0;
    while i < v.len()
        invariant
            i <= v.len(),
            v@ == p@,
            forall|k: int|
                0 <= k < i ==> !text::in_set(CharSet::OneOf(SPECIAL), #[trigger] p@[k]),
        decreases v.len() - i,
    {
        if set_has(CharSet::OneOf(SPECIAL), v[i]) {
            assert(text::in_set(CharSet::OneOf(SPECIAL), p@[i as int]));
            return false;
        }
        i += 1;
    }
    byte_len(p) >= 2
}

/// The word that a call of `bash` searches for, where the index may know it.
pub open spec fn searched_word(args: JsonView) -> Option<Seq<char>> {
    match args.at("command"@).text() {
        Some(c) => match grep_pattern(c) {
            Some(p) => if plain_word(p) {
                Some(p)
            } else {
                None
            },
            None => None,
        },
        None => None,
    }
}

/// The indexed file that a call of `bash` searches.
pub open spec fn searched_file(args: JsonView, g: ProjectGraph) -> Option<Seq<char>> {
    match (searched_word(args), args.at("command"@).text()) {
        (Some(_), Some(c)) => match grep_target(c) {
            Some(t) => if g.file_lines@.dom().contains(t) {
                Some(t)
            } else {
                None
            },
            None => None,
        },
        _ => None,
    }
}

/// The first `max` lines among the first `n` that hold the word, in small
/// letters, each behind its number.
pub open spec fn hits(ls: Seq<Seq<char>>, word: Seq<char>, n: int, max: int) -> Seq<Seq<char>>
    decreases n,
{
    if n <= 0 {
        Seq::empty()
    } else {
        let before = hits(ls, word, n - 1, max);
        if before.len() < max && text::contains(text::lowercase(ls[n - 1]), text::lowercase(word)) {
            before.push(number::decimal(n as nat) + ":"@ + text::trim(ls[n - 1]))
        } else {
            before
        }
    }
}

/// What is said of hits in a file.
pub open spec fn hits_text(file: Seq<char>, found: Seq<Seq<char>>) -> Seq<char> {
    "[graph intercept — searched "@ + file + " in-memory]\n"@ + pieces::join(found, "\n"@)
        + "\nUse read_file(path=\""@ + file
        + "\", line_range=[N-5, N+30]) to read context."@
}

/// The first symbol of the name in the file.
pub open spec fn first_symbol(
    ss: Seq<SymbolView>,
    name: Seq<char>,
    file: Seq<char>,
) -> Option<SymbolView>
    decreases ss.len(),
{
    if ss.len() == 0 {
        None
    } else if ss[0].name == name && ss[0].file == file {
        Some(ss[0])
    } else {
        first_symbol(ss.skip(1), name, file)
    }
}

/// Where a word is defined in a file.
pub open spec fn location(ss: Seq<SymbolView>, name: Seq<char>, file: Seq<char>) -> Seq<char> {
    match first_symbol(ss, name, file) {
        Some(s) => if s.line > 0 {
            "  "@ + file + ":"@ + number::decimal(s.line as nat) + " ("@ + index::label(s.kind)
                + ") → read_file(path=\""@ + file + "\", line_range=["@ + number::decimal(
                if s.line > 1 {
                    (s.line - 1) as nat
                } else {
                    1
                },
            ) + ", "@ + number::decimal(s.end_line as nat) + "])"@
        } else {
            "  "@ + file
        },
        None => "  "@ + file,
    }
}

/// What is said of a word that the index has.
pub open spec fn found_text(word: Seq<char>, places: Seq<Seq<char>>) -> Seq<char> {
    "[graph intercept] '"@ + word + "' found in index — no grep needed:\n"@ + pieces::join(
        places,
        "\n"@,
    ) + "\nUse the EXACT line_range shown — it covers the complete body."@
}

/// What the index answers in place of a search. `content` is what the
/// searched file holds.
pub open spec fn intercepted(
    args: JsonView,
    g: ProjectGraph,
    content: Option<Seq<char>>,
) -> Option<Seq<char>> {
    match searched_word(args) {
        Some(word) => {
            let in_file = match (searched_file(args, g), content) {
                (Some(_), Some(c)) => hits(
                    pieces::lines(c),
                    word,
                    pieces::lines(c).len() as int,
                    30,
                ),
                _ => Seq::empty(),
            };
            if in_file.len() > 0 {
                Some(hits_text(searched_file(args, g)->0, in_file))
            } else if g.by_name@.dom().contains(word) && g.by_name@[word]@.len() > 0 {
                Some(
                    found_text(
                        word,
                        Seq::new(
                            g.by_name@[word]@.len(),
                            |i: int|
                                location(
                                    index::symbol_views(g.symbols@),
                                    word,
                                    g.by_name@[word]@[i]@,
                                ),
                        ),
                    ),
                )
            } else {
                None
            }
        },
        None => None,
    }
}

fn word_in(args: &Json) -> (r: Option<String>)
    ensures
        text::opt_text(r) == searched_word(args@),
{
    match args.text_of("command") {
        Some(c) => match extract_grep_pattern(c.as_str()) {
            Some(p) => if is_plain_word(p.as_str()) {
                Some(p)
            } else {
                None
            },
            None => None,
        },
        None => None,
    }
}

/// The file whose content decides what the index answers to a call of
/// `bash`.
pub fn intercept_file(args: &Json, graph: &ProjectGraph) -> (r: Option<String>)
    ensures
        text::opt_text(r) == searched_file(args@, *graph),
{
    if word_in(args).is_none() {
        return None;
    }
    match args.text_of("command") {
        Some(c) => match extract_grep_target_file(c.as_str()) {
            Some(t) => if graph.file_lines.contains(t.as_str()) {
                Some(t)
            } else {
                None
            },
            None => None,
        },
        None => None,
    }
}

fn find_hits(content: &str, word: &str) -> (r: Vec<String>)
    ensures
        text::views(r@) == hits(
            pieces::lines(content@),
            word@,
            pieces::lines(content@).len() as int,
            30,
        ),
{
    let ls = lines_of(content);
    let ghost lv = text::views(ls@);
    assert(lv.len() == ls@.len());
    let low = word.to_lowercase();
    let mut out: Vec<String> = Vec::new();
    let mut i: usize = 0;
    proof {
        text::views_empty();
    }
    while i < ls.len()
        invariant
            i <= ls.len(),
            lv == text::views(ls@),
            low@ == text::lowercase(word@),
            text::views(out@) == hits(lv, word@, i as int, 30),
        decreases ls.len() - i,
    {
        assert(lv[i as int] == ls@[i as int]@);
        assert(text::views(out@).len() == out@.len());
        if out.len() < 30 && holds(ls[i].to_lowercase().as_str(), low.as_str()) {
            let mut s = decimal_usize(i + 1);
            s.append(":");
            s.append(trimmed(ls[i].as_str()).as_str());
            out.push(s);
        }
        i += 1;
    }
    out
}

fn symbol_in<'a>(symbols: &'a Vec<Symbol>, name: &str, file: &str) -> (r: Option<&'a Symbol>)
    ensures
        match r {
            Some(s) => first_symbol(index::symbol_views(symbols@), name@, file@) == Some(s@),
            None => first_symbol(index::symbol_views(symbols@), name@, file@) is None,
        },
{
    let ghost sv = index::symbol_views(symbols@);
    let mut i: usize = 0;
    assert(sv.skip(0) =~= sv);
    while i < symbols.len()
        invariant
            i <= symbols.len(),
            sv == index::symbol_views(symbols@),
            first_symbol(sv, name@, file@) == first_symbol(sv.skip(i as int), name@, file@),
        decreases symbols.len() - i,
    {
        assert(sv.skip(i as int)[0] == symbols@[i as int]@);
        assert(sv.skip(i as int).skip(1) =~= sv.skip(i + 1));
        if same(symbols[i].name.as_str(), name) && same(symbols[i].file.as_str(), file) {
            return Some(&symbols[i]);
        }
        i += 1;
    }
    None
}

fn show_location(symbols: &Vec<Symbol>, name: &str, file: &str) -> (r: String)
    ensures
        r@ == location(index::symbol_views(symbols@), name@, file@),
{
    let mut out = "  ".to_owned();
    out.append(file);
    match symbol_in(symbols, name, file) {
        Some(s) => {
            if s.line > 0 {
                let start: usize = if s.line > 1 {
                    s.line - 1
                } else {
                    1
                };
                out.append(":");
                out.append(decimal_usize(s.line).as_str());
                out.append(" (");
                out.append(s.kind.label());
                out.append(") → read_file(path=\"");
                out.append(file);
                out.append("\", line_range=[");
                out.append(decimal_usize(start).as_str());
                out.append(", ");
                out.append(decimal_usize(s.end_line).as_str());
                out.append("])");
            }
        },
        None => {},
    }
    out
}

/// What the index answers in place of a search. `content` is what the file
/// of `intercept_file` holds, where it could be read.
pub fn bash_graph_intercept(args: &Json, graph: &ProjectGraph, content: Option<&str>) -> (r: Option<
    String,
>)
    ensures
        text::opt_text(r) == intercepted(
            args@,
            *graph,
            match content {
                Some(c) => Some(c@),
                None => None,
            },
        ),
{
    let word = match word_in(args) {
        Some(w) => w,
        None => {
            return None;
        },
    };
    if let Some(c) = content {
        if let Some(file) = intercept_file(args, graph) {
            let found = find_hits(c, word.as_str());
            assert(text::views(found@).len() == found@.len());
            if found.len() > 0 {
                let mut s = "[graph intercept — searched ".to_owned();
                s.append(file.as_str());
                s.append(" in-memory]\n");
                s.append(join_with(&found, "\n").as_str());
                s.append("\nUse read_file(path=\"");
                s.append(file.as_str());
                s.append("\", line_range=[N-5, N+30]) to read context.");
                return Some(s);
            }
        }
    }
    match graph.by_name.get(word.as_str()) {
        Some(files) => {
            if files.len() == 0 {
                return None;
            }
            let ghost goal = Seq::new(
                files@.len(),
                |i: int| location(index::symbol_views(graph.symbols@), word@, files@[i]@),
            );
            let mut places: Vec<String> = Vec::new();
            let mut i: usize = 0;
            while i < files.len()
                invariant
                    i <= files.len(),
                    places.len() == i,
                    forall|k: int|
                        0 <= k < i ==> (#[trigger] places@[k])@ == location(
                            index::symbol_views(graph.symbols@),
                            word@,
                            files@[k]@,
                        ),
                decreases files.len() - i,
            {
                places.push(
                    show_location(&graph.symbols, word.as_str(), files[i].as_str()),
                );
                i += 1;
            }
            assert(text::views(places@) =~= goal);
            let mut s = "[graph intercept] '".to_owned();
            s.append(word.as_str());
            s.append("' found in index — no grep needed:\n");
            s.append(join_with(&places, "\n").as_str());
            s.append("\nUse the EXACT line_range shown — it covers the complete body.");
            Some(s)
        },
        None => None,
    }
}

/// A word that the index does not have, searched in no indexed file, is left
/// to the search.
pub proof fn unknown_is_searched(args: JsonView, g: ProjectGraph, content: Option<Seq<char>>)
    requires
        searched_file(args, g) is None,
        match searched_word(args) {
            Some(w) => !g.by_name@.dom().contains(w),
            None => true,
        },
    ensures
        intercepted(args, g, content) is None,
{
}

/// Flags are passed over, with the value of those that take one, and quotes
/// are taken off what is searched for.
pub proof fn flags_are_passed_over(w: Seq<char>, v: Seq<char>, rest: Seq<Seq<char>>)
    ensures
        w == "-e"@ || w == "-f"@ || w == "--include"@ || w == "--exclude"@ || w == "--type"@ || w == "-t"@
            || w == "-g"@ ==> first_argument(seq![w, v] + rest) == first_argument(rest),
        w.len() > 0 && w[0] == '-' && w != "-e"@ && w != "-f"@ && w != "--include"@ && w != "--exclude"@ && w
            != "--type"@ && w != "-t"@ && w != "-g"@ ==> first_argument(seq![w] + rest)
            == first_argument(rest),
        w.len() > 0 && w[0] != '-' && text::trim_set(w, CharSet::OneOf("\"'")).len() > 0
            ==> first_argument(seq![w] + rest) == Some(text::trim_set(w, CharSet::OneOf("\"'"))),
{
    reveal_strlit("-");
    reveal_strlit("-e");
    reveal_strlit("-f");
    reveal_strlit("--include");
    reveal_strlit("--exclude");
    reveal_strlit("--type");
    reveal_strlit("-t");
    reveal_strlit("-g");
    let f = flags_with_value();
    assert(f.len() == 7);
    assert(f[0] == "-e"@ && f[1] == "-f"@ && f[2] == "--include"@ && f[3] == "--exclude"@ && f[4]
        == "--type"@ && f[5] == "-t"@ && f[6] == "-g"@);
    let two = seq![w, v] + rest;
    let one = seq![w] + rest;
    assert(two.skip(2) =~= rest);
    assert(one.skip(1) =~= rest);
    assert(two[0] == w && one[0] == w);
    if w.len() > 0 {
        assert(w.subrange(0, 1)[0] == w[0]);
        if w[0] == '-' {
            assert(w.subrange(0, 1) =~= "-"@);
        }
    }
    assert(f.contains("-e"@) && f.contains("-f"@) && f.contains("--include"@) && f.contains(
        "--exclude"@,
    ) && f.contains("--type"@) && f.contains("-t"@) && f.contains("-g"@));
}

/// Only a command that is `grep` or `rg` searches.
pub proof fn only_searches_are_looked_at(command: Seq<char>)
    ensures
        ({
            let ws = pieces::words(command);
            &&& ws.len() > 0 && (ws[0] == "grep"@ || ws[0] == "rg"@) ==> grep_pattern(command)
                == first_argument(ws.skip(1))
            &&& ws.len() == 0 || (ws[0] != "grep"@ && ws[0] != "rg"@) ==> grep_pattern(command) is None
        }),
{
}

/// A search finds the lines that hold the word, capitals aside: each with its
/// number, from the top, as many as are asked for.
pub proof fn lines_with_the_word_are_found(ls: Seq<Seq<char>>, word: Seq<char>, n: int, max: int)
    requires
        0 <= n,
        0 <= max,
    ensures
        hits(ls, word, n, max) == pie::first_n(
            Seq::new(n as nat, |i: int| i).filter(
                |i: int| text::contains(text::lowercase(ls[i]), text::lowercase(word)),
            ).map_values(|i: int| number::decimal((i + 1) as nat) + ":"@ + text::trim(ls[i])),
            max,
        ),
    decreases n,
{
    reveal(Seq::filter);
    let all = Seq::new(n as nat, |i: int| i);
    let has = |i: int| text::contains(text::lowercase(ls[i]), text::lowercase(word));
    let show = |i: int| number::decimal((i + 1) as nat) + ":"@ + text::trim(ls[i]);
    if n > 0 {
        lines_with_the_word_are_found(ls, word, n - 1, max);
        let t = Seq::new((n - 1) as nat, |i: int| i);
        assert(all.drop_last() =~= t);
        assert(all.last() == n - 1);
        let a = t.filter(has);
        assert(a.push(n - 1).map_values(show) =~= a.map_values(show).push(show(n - 1)));
        let m = a.map_values(show);
        if has(n - 1) {
            if m.len() >= max {
                assert(m.push(show(n - 1)).take(max) =~= m.take(max));
                if m.len() == max {
                    assert(m.take(max) =~= m);
                }
            }
        }
    } else {
        assert(all =~= Seq::empty());
        assert(all.filter(has).map_values(show) =~= Seq::empty());
    }
}

/// A symbol is found by its name and its file, the first of several.
pub proof fn first_of_the_name_is_found(
    ss: Seq<SymbolView>,
    name: Seq<char>,
    file: Seq<char>,
    i: int,
)
    requires
        0 <= i <= ss.len(),
        forall|k: int| 0 <= k < i ==> (#[trigger] ss[k]).name != name || ss[k].file != file,
    ensures
        i == ss.len() ==> first_symbol(ss, name, file) is None,
        i < ss.len() && ss[i].name == name && ss[i].file == file ==> first_symbol(ss, name, file) == Some(
            ss[i],
        ),
    decreases ss.len(),
{
    if i > 0 {
        let t = ss.skip(1);
        assert forall|k: int| 0 <= k < i - 1 implies (#[trigger] t[k]).name != name || t[k].file != file by {
            assert(t[k] == ss[k + 1]);
        }
        first_of_the_name_is_found(t, name, file, i - 1);
        assert(ss[0].name != name || ss[0].file != file);
        if i < ss.len() {
            assert(t[i - 1] == ss[i]);
        }
    }
}

/// Behind the pattern the first word that names a source file or a path is the
/// file; flags are passed over, and a pattern of names or a directory means
/// that no one file is searched.
pub proof fn file_stands_behind_the_pattern(w: Seq<char>, rest: Seq<Seq<char>>)
    requires
        w.len() > 0,
    ensures
        w[0] == '-' ==> file_argument(seq![w] + rest, true) == file_argument(rest, true)
            && file_argument(seq![w] + rest, false) == file_argument(rest, false),
        w[0] != '-' ==> file_argument(seq![w] + rest, false) == file_argument(rest, true),
        w[0] != '-' && (w.contains('*') || w.last() == '/') ==> file_argument(
            seq![w] + rest,
            true,
        ) is None,
        w[0] != '-' && !w.contains('*') && w.last() != '/' && w.contains('/') ==> file_argument(
            seq![w] + rest,
            true,
        ) == Some(w),
{
    reveal_strlit("-");
    reveal_strlit("*");
    reveal_strlit("/");
    let s = seq![w] + rest;
    assert(s[0] == w);
    assert(s.skip(1) =~= rest);
    assert(w.subrange(0, 1)[0] == w[0]);
    if w[0] == '-' {
        assert(w.subrange(0, 1) =~= "-"@);
    }
    let n = w.len() as int;
    assert(w.subrange(n - 1, n)[0] == w.last());
    if w.last() == '/' {
        assert(w.subrange(n - 1, n) =~= "/"@);
    }
    sign_is_held(w, "*"@);
    sign_is_held(w, "/"@);
    assert("*"@[0] == '*' && "/"@[0] == '/');
}

proof fn sign_is_held(s: Seq<char>, p: Seq<char>)
    requires
        p.len() == 1,
    ensures
        text::contains(s, p) == s.contains(p[0]),
{
    if s.contains(p[0]) {
        let i = s.index_of(p[0]);
        assert(s.subrange(i, i + 1) =~= p);
        assert(text::occurs_at(s, p, i));
    } else {
        text::found_nowhere(s, p);
    }
}

} // verus!
