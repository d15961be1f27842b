//! What the files of a project say of how it is worked on.

use crate::agent;
use crate::agent::convention_files;
use crate::names::NameMap;
use crate::pieces;
use crate::pieces::{before_first, join_with, lines_of, trim_front_text};
use crate::text;
use crate::text::{begins_with, count, from_chars, holds, lead_chars, same, strip_prefix, to_chars, trim_back_by, trim_by, trim_front_by, trimmed, CharSet};
use vstd::prelude::*;

verus! {

broadcast use crate::text::views_push;

/// The files of a directory: what each holds, where it could be read.
#[derive(Debug)]
pub struct ProjectFiles {
    pub files: NameMap<Option<String>>,
}

impl ProjectFiles {
    /// Whether there is a file.
    pub open spec fn present(&self, name: Seq<char>) -> bool {
        self.files@.dom().contains(name)
    }

    /// What a file holds.
    pub open spec fn content(&self, name: Seq<char>) -> Option<Seq<char>> {
        if self.present(name) {
            text::opt_text(self.files@[name])
        } else {
            None
        }
    }

    pub fn has_file(&self, name: &str) -> (r: bool)
        ensures
            r == self.present(name@),
    {
        self.files.contains(name)
    }

    pub fn read(&self, name: &str) -> (r: Option<&String>)
        ensures
            match r {
                Some(s) => self.content(name@) == Some(s@),
                None => self.content(name@) is None,
            },
    {
        match self.files.get(name) {
            Some(Some(s)) => Some(s),
            _ => None,
        }
    }
}

// ── Fields ───────────────────────────────────────────────────────────────────

/// What follows the needle on the first line that begins with it.
pub open spec fn behind_first(ls: Seq<Seq<char>>, needle: Seq<char>) -> Option<Seq<char>>
    decreases ls.len(),
{
    if ls.len() == 0 {
        None
    } else {
        match text::behind(text::trim(ls[0]), needle) {
            Some(rest) => Some(text::trim(rest)),
            None => behind_first(ls.skip(1), needle),
        }
    }
}

fn find_behind(content: &str, needle: &str) -> (r: Option<String>)
    ensures
        text::opt_text(r) == behind_first(pieces::lines(content@), needle@),
{
    let ls = lines_of(content);
    let ghost lv = text::views(ls@);
    let mut i: usize = 0;
    assert(lv.skip(0) =~= lv);
    while i < ls.len()
        invariant
            i <= ls.len(),
            lv == text::views(ls@),
            lv == pieces::lines(content@),
            behind_first(lv, needle@) == behind_first(lv.skip(i as int), needle@),
        decreases ls.len() - i,
    {
        assert(lv.skip(i as int)[0] == ls@[i as int]@);
        assert(lv.skip(i as int).skip(1) =~= lv.skip(i + 1));
        match strip_prefix(trimmed(ls[i].as_str()).as_str(), needle) {
            Some(rest) => {
                return Some(trimmed(rest.as_str()));
            },
            None => {},
        }
        i += 1;
    }
    None
}

/// The value of `field = "value"`.
pub open spec fn toml_value(content: Seq<char>, field: Seq<char>) -> Option<Seq<char>> {
    match behind_first(pieces::lines(content), field + " = "@) {
        Some(v) => Some(text::trim_set(v, CharSet::OneOf("\""))),
        None => None,
    }
}

/// The value of `field = "value"`.
pub fn toml_field(content: &str, field: &str) -> (r: Option<String>)
    ensures
        text::opt_text(r) == toml_value(content@, field@),
{
    let mut needle = field.to_owned();
    needle.append(" = ");
    match find_behind(content, needle.as_str()) {
        Some(v) => Some(trim_by(v.as_str(), CharSet::OneOf("\""))),
        None => None,
    }
}

/// The value of `"field": "value",`.
pub open spec fn json_value(content: Seq<char>, field: Seq<char>) -> Option<Seq<char>> {
    match behind_first(pieces::lines(content), "\""@ + field + "\":"@) {
        Some(v) => Some(
            text::trim_end_set(
                text::trim_start_set(v, CharSet::OneOf("\"")),
                CharSet::OneOf("\","),
            ),
        ),
        None => None,
    }
}

/// The value of `"field": "value",`.
pub fn json_field(content: &str, field: &str) -> (r: Option<String>)
    ensures
        text::opt_text(r) == json_value(content@, field@),
{
    let mut needle = "\"".to_owned();
    needle.append(field);
    needle.append("\":");
    match find_behind(content, needle.as_str()) {
        Some(v) => Some(
            trim_back_by(
                trim_front_by(v.as_str(), CharSet::OneOf("\"")).as_str(),
                CharSet::OneOf("\","),
            ),
        ),
        None => None,
    }
}

// ── Dependencies ─────────────────────────────────────────────────────────────

/// What a line says of dependencies.
pub enum DepLine {
    /// They start here.
    Opens,
    /// They end here.
    Closes,
    /// A name, where there is one.
    Names(Option<Seq<char>>),
}

pub open spec fn nonempty(s: Seq<char>) -> Option<Seq<char>> {
    if s.len() > 0 {
        Some(s)
    } else {
        None
    }
}

pub open spec fn cargo_line(t: Seq<char>) -> DepLine {
    let name = text::trim(pieces::before_text(t, "="@));
    if t == "[dependencies]"@ {
        DepLine::Opens
    } else if text::begins(t, "["@) {
        DepLine::Closes
    } else if text::begins(name, "#"@) {
        DepLine::Names(None)
    } else {
        DepLine::Names(nonempty(name))
    }
}

pub open spec fn npm_line(t: Seq<char>) -> DepLine {
    if text::contains(t, "\"dependencies\""@) {
        DepLine::Opens
    } else if t == "}"@ || t == "},"@ {
        DepLine::Closes
    } else {
        DepLine::Names(
            nonempty(
                text::trim_set(
                    text::trim(pieces::before_text(t, ":"@)),
                    CharSet::OneOf("\""),
                ),
            ),
        )
    }
}

pub open spec fn pyproject_line(t: Seq<char>) -> DepLine {
    let clean = text::trim_set(t, CharSet::OneOf("\"', "));
    if text::begins(t, "dependencies = ["@) {
        DepLine::Opens
    } else if t == "]"@ {
        DepLine::Closes
    } else {
        DepLine::Names(
            nonempty(clean.take(text::lead(clean, CharSet::OneOf("><=!["), false) as int)),
        )
    }
}

/// The names that the lines give between where dependencies start and end.
pub open spec fn deps(
    ls: Seq<Seq<char>>,
    inside: bool,
    f: spec_fn(Seq<char>) -> DepLine,
) -> Seq<Seq<char>>
    decreases ls.len(),
{
    if ls.len() == 0 {
        Seq::empty()
    } else {
        match f(text::trim(ls[0])) {
            DepLine::Opens => deps(ls.skip(1), true, f),
            DepLine::Closes => if inside {
                Seq::empty()
            } else {
                deps(ls.skip(1), inside, f)
            },
            DepLine::Names(name) => match name {
                Some(n) => if inside {
                    seq![n] + deps(ls.skip(1), inside, f)
                } else {
                    deps(ls.skip(1), inside, f)
                },
                None => deps(ls.skip(1), inside, f),
            },
        }
    }
}

/// The first eight names on one line.
pub open spec fn eight(names: Seq<Seq<char>>) -> Seq<char> {
    pieces::join(
        if names.len() > 8 {
            names.take(8)
        } else {
            names
        },
        ", "@,
    )
}

/// What a line says of dependencies.
#[derive(Debug)]
enum DepStep {
    Opens,
    Closes,
    Names(Option<String>),
}

spec fn step_view(s: DepStep) -> DepLine {
    match s {
        DepStep::Opens => DepLine::Opens,
        DepStep::Closes => DepLine::Closes,
        DepStep::Names(n) => DepLine::Names(text::opt_text(n)),
    }
}

fn filled(s: String) -> (r: Option<String>)
    ensures
        text::opt_text(r) == nonempty(s@),
{
    if count(s.as_str()) > 0 {
        Some(s)
    } else {
        None
    }
}

fn read_cargo(t: &str) -> (r: DepStep)
    ensures
        step_view(r) == cargo_line(t@),
{
    let name = trimmed(before_first(t, "=").as_str());
    if same(t, "[dependencies]") {
        DepStep::Opens
    } else if begins_with(t, "[") {
        DepStep::Closes
    } else if begins_with(name.as_str(), "#") {
        DepStep::Names(None)
    } else {
        DepStep::Names(filled(name))
    }
}

fn read_npm(t: &str) -> (r: DepStep)
    ensures
        step_view(r) == npm_line(t@),
{
    if holds(t, "\"dependencies\"") {
        DepStep::Opens
    } else if same(t, "}") || same(t, "},") {
        DepStep::Closes
    } else {
        let name = trimmed(before_first(t, ":").as_str());
        DepStep::Names(filled(trim_by(name.as_str(), CharSet::OneOf("\""))))
    }
}

fn read_pyproject(t: &str) -> (r: DepStep)
    ensures
        step_view(r) == pyproject_line(t@),
{
    if begins_with(t, "dependencies = [") {
        DepStep::Opens
    } else if same(t, "]") {
        DepStep::Closes
    } else {
        let clean = trim_by(t, CharSet::OneOf("\"', "));
        let v = to_chars(clean.as_str());
        assert(v@.skip(0) =~= clean@);
        let n: usize = lead_chars(&v, 0, CharSet::OneOf("><=!["), false);
        let name = from_chars(&v, 0, n);
        assert(name@ =~= clean@.take(n as int));
        DepStep::Names(filled(name))
    }
}

fn collect_deps<F: Fn(&str) -> DepStep>(
    content: &str,
    read: F,
    Ghost(f): Ghost<spec_fn(Seq<char>) -> DepLine>,
) -> (r: String)
    requires
        forall|t: &str| #[trigger] call_requires(read, (t,)),
        forall|t: &str, s: DepStep| #[trigger] call_ensures(read, (t,), s) ==> step_view(s) == f(
            t@,
        ),
    ensures
        r@ == eight(deps(pieces::lines(content@), false, f)),
{
    let ls = lines_of(content);
    let ghost lv = text::views(ls@);
    let ghost goal = deps(lv, false, f);
    let mut found: Vec<String> = Vec::new();
    let mut inside = false;
    let mut done = false;
    let mut i: usize = 0;
    proof {
        text::views_empty();
        assert(lv.skip(0) =~= lv);
        assert(text::views(found@) + goal =~= goal);
    }
    while i < ls.len() && !done
        invariant
            i <= ls.len(),
            lv == text::views(ls@),
            forall|t: &str| #[trigger] call_requires(read, (t,)),
            forall|t: &str, s: DepStep| #[trigger]
                call_ensures(read, (t,), s) ==> step_view(s) == f(t@),
            !done ==> goal == text::views(found@) + deps(lv.skip(i as int), inside, f),
            done ==> goal == text::views(found@),
        decreases ls.len() - i,
    {
        assert(lv.skip(i as int)[0] == ls@[i as int]@);
        assert(lv.skip(i as int).skip(1) =~= lv.skip(i + 1));
        let t = trimmed(ls[i].as_str());
        let ghost before = text::views(found@);
        match read(t.as_str()) {
            DepStep::Opens => {
                inside = true;
            },
            DepStep::Closes => {
                if inside {
                    done = true;
                    assert(before + Seq::<Seq<char>>::empty() =~= before);
                }
            },
            DepStep::Names(name) => {
                if let Some(n) = name {
                    if inside {
                        found.push(n);
                        assert(text::views(found@) + deps(lv.skip(i + 1), inside, f) =~= before + (
                        seq![n@] + deps(lv.skip(i + 1), inside, f)));
                    }
                }
            },
        }
        i += 1;
    }
    proof {
        if !done {
            assert(lv.skip(i as int) =~= Seq::<Seq<char>>::empty());
            assert(text::views(found@) + Seq::<Seq<char>>::empty() =~= text::views(found@));
        }
    }
    let ghost all = text::views(found@);
    assert(all.len() == found@.len());
    if found.len() > 8 {
        found.truncate(8);
        assert(text::views(found@) =~= all.take(8));
    }
    join_with(&found, ", ")
}

/// The first dependencies that a `Cargo.toml` names.
pub fn extract_cargo_deps(content: &str) -> (r: String)
    ensures
        r@ == eight(deps(pieces::lines(content@), false, |t: Seq<char>| cargo_line(t))),
{
    let read = |t: &str| -> (s: DepStep)
        ensures step_view(s) == cargo_line(t@)
        {
            read_cargo(t)
        };
    collect_deps(content, read, Ghost(|t: Seq<char>| cargo_line(t)))
}

/// The first dependencies that a `package.json` names.
pub fn extract_npm_deps(content: &str) -> (r: String)
    ensures
        r@ == eight(deps(pieces::lines(content@), false, |t: Seq<char>| npm_line(t))),
{
    let read = |t: &str| -> (s: DepStep)
        ensures step_view(s) == npm_line(t@)
        {
            read_npm(t)
        };
    collect_deps(content, read, Ghost(|t: Seq<char>| npm_line(t)))
}

/// The first dependencies that a `pyproject.toml` names.
pub fn extract_pyproject_deps(content: &str) -> (r: String)
    ensures
        r@ == eight(deps(pieces::lines(content@), false, |t: Seq<char>| pyproject_line(t))),
{
    let read = |t: &str| -> (s: DepStep)
        ensures step_view(s) == pyproject_line(t@)
        {
            read_pyproject(t)
        };
    collect_deps(content, read, Ghost(|t: Seq<char>| pyproject_line(t)))
}

// ── The manifest ─────────────────────────────────────────────────────────────

/// What a project is: its name, its language, what it rests on, and how its
/// tests are run.
#[derive(Debug)]
pub struct Manifest {
    pub name: String,
    pub language: String,
    pub deps: String,
    pub test_runner: String,
}

/// What a `Manifest` says.
#[verifier::ext_equal]
pub struct ManifestView {
    pub name: Seq<char>,
    pub language: Seq<char>,
    pub deps: Seq<char>,
    pub test_runner: Seq<char>,
}

impl View for Manifest {
    type V = ManifestView;

    open spec fn view(&self) -> ManifestView {
        ManifestView {
            name: self.name@,
            language: self.language@,
            deps: self.deps@,
            test_runner: self.test_runner@,
        }
    }
}

pub open spec fn or_name(o: Option<Seq<char>>, d: Seq<char>) -> Seq<char> {
    match o {
        Some(s) => s,
        None => d,
    }
}

pub open spec fn node_language(p: ProjectFiles) -> Seq<char> {
    if p.present("bun.lockb"@) || p.present("bun.lock"@) {
        "TypeScript (Bun runtime)"@
    } else if p.present("deno.json"@) || p.present("deno.jsonc"@) {
        "TypeScript (Deno runtime)"@
    } else if p.present("tsconfig.json"@) {
        "TypeScript (Node.js)"@
    } else {
        "JavaScript (Node.js)"@
    }
}

/// The language of a project with a `package.json`.
pub fn detect_node_runtime(p: &ProjectFiles) -> (r: &'static str)
    ensures
        r@ == node_language(*p),
{
    if p.has_file("bun.lockb") || p.has_file("bun.lock") {
        "TypeScript (Bun runtime)"
    } else if p.has_file("deno.json") || p.has_file("deno.jsonc") {
        "TypeScript (Deno runtime)"
    } else if p.has_file("tsconfig.json") {
        "TypeScript (Node.js)"
    } else {
        "JavaScript (Node.js)"
    }
}

pub open spec fn node_tests(p: ProjectFiles, pkg: Seq<char>) -> Seq<char> {
    if p.present("jest.config.js"@) || p.present("jest.config.ts"@) || p.present("jest.config.mjs"@)
        || text::contains(pkg, "\"jest\""@) {
        "npx jest"@
    } else if p.present("vitest.config.ts"@) || p.present("vitest.config.js"@) || text::contains(
        pkg,
        "\"vitest\""@,
    ) {
        "npx vitest"@
    } else if p.present("bun.lockb"@) || p.present("bun.lock"@) {
        "bun test"@
    } else {
        "npm test"@
    }
}

/// How the tests of a project with a `package.json` are run.
pub fn detect_node_test_runner(p: &ProjectFiles, pkg_content: &str) -> (r: &'static str)
    ensures
        r@ == node_tests(*p, pkg_content@),
{
    if p.has_file("jest.config.js") || p.has_file("jest.config.ts") || p.has_file(
        "jest.config.mjs",
    ) || holds(pkg_content, "\"jest\"") {
        "npx jest"
    } else if p.has_file("vitest.config.ts") || p.has_file("vitest.config.js") || holds(
        pkg_content,
        "\"vitest\"",
    ) {
        "npx vitest"
    } else if p.has_file("bun.lockb") || p.has_file("bun.lock") {
        "bun test"
    } else {
        "npm test"
    }
}

pub open spec fn python_tests(p: ProjectFiles) -> Seq<char> {
    if p.present("pytest.ini"@) || p.present("setup.cfg"@) || p.present("conftest.py"@) {
        "pytest"@
    } else {
        "python -m pytest"@
    }
}

/// How the tests of a project with a `pyproject.toml` are run.
pub fn detect_python_test_runner(p: &ProjectFiles) -> (r: &'static str)
    ensures
        r@ == python_tests(*p),
{
    if p.has_file("pytest.ini") || p.has_file("setup.cfg") || p.has_file("conftest.py") {
        "pytest"
    } else {
        "python -m pytest"
    }
}

/// The module that a `go.mod` names.
pub open spec fn go_module(ls: Seq<Seq<char>>) -> Option<Seq<char>>
    decreases ls.len(),
{
    if ls.len() == 0 {
        None
    } else if text::begins(ls[0], "module "@) {
        Some(text::trim(pieces::trim_start_text(ls[0], "module "@)))
    } else {
        go_module(ls.skip(1))
    }
}

fn read_go_module(content: &str) -> (r: Option<String>)
    ensures
        text::opt_text(r) == go_module(pieces::lines(content@)),
{
    let ls = lines_of(content);
    let ghost lv = text::views(ls@);
    let mut i: usize = 0;
    assert(lv.skip(0) =~= lv);
    proof {
        reveal_strlit("module ");
    }
    while i < ls.len()
        invariant
            i <= ls.len(),
            lv == text::views(ls@),
            lv == pieces::lines(content@),
            "module "@.len() > 0,
            go_module(lv) == go_module(lv.skip(i as int)),
        decreases ls.len() - i,
    {
        assert(lv.skip(i as int)[0] == ls@[i as int]@);
        assert(lv.skip(i as int).skip(1) =~= lv.skip(i + 1));
        if begins_with(ls[i].as_str(), "module ") {
            return Some(trimmed(trim_front_text(ls[i].as_str(), "module ").as_str()));
        }
        i += 1;
    }
    None
}

/// What a project is, by the first manifest that can be read.
pub open spec fn manifest_of(p: ProjectFiles) -> ManifestView {
    match p.content("Cargo.toml"@) {
        Some(raw) => ManifestView {
            name: or_name(toml_value(raw, "name"@), "rust-project"@),
            language: "Rust"@,
            deps: eight(deps(pieces::lines(raw), false, |t: Seq<char>| cargo_line(t))),
            test_runner: "cargo test"@,
        },
        None => match p.content("package.json"@) {
            Some(raw) => ManifestView {
                name: or_name(json_value(raw, "name"@), "node-project"@),
                language: node_language(p),
                deps: eight(deps(pieces::lines(raw), false, |t: Seq<char>| npm_line(t))),
                test_runner: node_tests(p, raw),
            },
            None => match p.content("pyproject.toml"@) {
                Some(raw) => ManifestView {
                    name: or_name(toml_value(raw, "name"@), "python-project"@),
                    language: "Python"@,
                    deps: eight(
                        deps(pieces::lines(raw), false, |t: Seq<char>| pyproject_line(t)),
                    ),
                    test_runner: python_tests(p),
                },
                None => match p.content("go.mod"@) {
                    Some(raw) => ManifestView {
                        name: or_name(go_module(pieces::lines(raw)), "go-project"@),
                        language: "Go"@,
                        deps: Seq::empty(),
                        test_runner: "go test ./..."@,
                    },
                    None => ManifestView {
                        name: "project"@,
                        language: Seq::empty(),
                        deps: Seq::empty(),
                        test_runner: Seq::empty(),
                    },
                },
            },
        },
    }
}

fn named_or(o: Option<String>, d: &str) -> (r: String)
    ensures
        r@ == or_name(text::opt_text(o), d@),
{
    match o {
        Some(s) => s,
        None => d.to_owned(),
    }
}

/// What a project is, by the first manifest that can be read.
pub fn detect_project_manifest(p: &ProjectFiles) -> (r: Manifest)
    ensures
        r@ == manifest_of(*p),
{
    if let Some(raw) = p.read("Cargo.toml") {
        return Manifest {
            name: named_or(toml_field(raw.as_str(), "name"), "rust-project"),
            language: "Rust".to_owned(),
            deps: extract_cargo_deps(raw.as_str()),
            test_runner: "cargo test".to_owned(),
        };
    }
    if let Some(raw) = p.read("package.json") {
        return Manifest {
            name: named_or(json_field(raw.as_str(), "name"), "node-project"),
            language: detect_node_runtime(p).to_owned(),
            deps: extract_npm_deps(raw.as_str()),
            test_runner: detect_node_test_runner(p, raw.as_str()).to_owned(),
        };
    }
    if let Some(raw) = p.read("pyproject.toml") {
        return Manifest {
            name: named_or(toml_field(raw.as_str(), "name"), "python-project"),
            language: "Python".to_owned(),
            deps: extract_pyproject_deps(raw.as_str()),
            test_runner: detect_python_test_runner(p).to_owned(),
        };
    }
    if let Some(raw) = p.read("go.mod") {
        return Manifest {
            name: named_or(read_go_module(raw.as_str()), "go-project"),
            language: "Go".to_owned(),
            deps: String::new(),
            test_runner: "go test ./...".to_owned(),
        };
    }
    Manifest {
        name: "project".to_owned(),
        language: String::new(),
        deps: String::new(),
        test_runner: String::new(),
    }
}

// ── Style ────────────────────────────────────────────────────────────────────

/// The first of the files that is there.
pub open spec fn first_existing(p: ProjectFiles, names: Seq<Seq<char>>) -> Option<Seq<char>>
    decreases names.len(),
{
    if names.len() == 0 {
        None
    } else if p.present(names[0]) {
        Some(names[0])
    } else {
        first_existing(p, names.skip(1))
    }
}

fn find_existing<'a>(p: &ProjectFiles, names: &[&'a str]) -> (r: Option<&'a str>)
    ensures
        match r {
            Some(n) => first_existing(*p, text::texts(names@)) == Some(n@),
            None => first_existing(*p, text::texts(names@)) is None,
        },
{
    let ghost nv = text::texts(names@);
    let mut i: usize = 0;
    assert(nv.skip(0) =~= nv);
    while i < names.len()
        invariant
            i <= names.len(),
            nv == text::texts(names@),
            first_existing(*p, nv) == first_existing(*p, nv.skip(i as int)),
        decreases names.len() - i,
    {
        assert(nv.skip(i as int)[0] == names@[i as int]@);
        assert(nv.skip(i as int).skip(1) =~= nv.skip(i + 1));
        if p.has_file(names[i]) {
            return Some(names[i]);
        }
        i += 1;
    }
    None
}

pub open spec fn eslint_files() -> Seq<Seq<char>> {
    seq![
        ".eslintrc"@,
        ".eslintrc.js"@,
        ".eslintrc.json"@,
        ".eslintrc.cjs"@,
        "eslint.config.js"@,
        "eslint.config.mjs"@,
    ]
}

pub open spec fn prettier_files() -> Seq<Seq<char>> {
    seq![".prettierrc"@, ".prettierrc.json"@, ".prettierrc.js"@, "prettier.config.js"@]
}

/// Whether a file can be read and holds the text.
pub open spec fn file_holds(p: ProjectFiles, name: Seq<char>, t: Seq<char>) -> bool {
    match p.content(name) {
        Some(c) => text::contains(c, t),
        None => false,
    }
}

fn does_hold(p: &ProjectFiles, name: &str, t: &str) -> (r: bool)
    ensures
        r == file_holds(*p, name@, t@),
{
    match p.read(name) {
        Some(c) => holds(c.as_str(), t),
        None => false,
    }
}

pub open spec fn when(b: bool, s: Seq<char>) -> Seq<Seq<char>> {
    if b {
        seq![s]
    } else {
        Seq::empty()
    }
}

/// What the settings of tools say of style.
pub open spec fn style_of(p: ProjectFiles) -> Seq<Seq<char>> {
    when(
        p.present("rustfmt.toml"@) || p.present(".rustfmt.toml"@),
        "Rust: rustfmt enforced (run `cargo fmt` after edits)"@,
    ) + (match first_existing(p, eslint_files()) {
        Some(rc) => seq!["ESLint configured ("@ + rc + ") — run `eslint --fix` after edits"@],
        None => Seq::empty(),
    }) + when(
        first_existing(p, prettier_files()) is Some,
        "Prettier configured — run `prettier --write` after edits"@,
    ) + when(
        file_holds(p, "pyproject.toml"@, "[tool.ruff]"@) || p.present("ruff.toml"@) || p.present(
            ".ruff.toml"@,
        ),
        "Ruff linter configured — run `ruff check --fix` after edits"@,
    ) + when(
        file_holds(p, ".cargo/config.toml"@, "clippy"@),
        "Clippy configured — run `cargo clippy` to check"@,
    )
}

fn push_when(hints: &mut Vec<String>, b: bool, s: &str)
    ensures
        text::views(final(hints)@) == text::views(old(hints)@) + when(b, s@),
{
    let ghost before = text::views(hints@);
    if b {
        hints.push(s.to_owned());
    }
    assert(text::views(hints@) =~= before + when(b, s@));
}

/// What the settings of tools say of style.
pub fn detect_style(p: &ProjectFiles) -> (r: Vec<String>)
    ensures
        text::views(r@) == style_of(*p),
{
    let eslint = [
        ".eslintrc",
        ".eslintrc.js",
        ".eslintrc.json",
        ".eslintrc.cjs",
        "eslint.config.js",
        "eslint.config.mjs",
    ];
    assert(text::texts(eslint@) =~= eslint_files());
    let prettier = [".prettierrc", ".prettierrc.json", ".prettierrc.js", "prettier.config.js"];
    assert(text::texts(prettier@) =~= prettier_files());
    let mut hints: Vec<String> = Vec::new();
    proof {
        text::views_empty();
    }
    push_when(
        &mut hints,
        p.has_file("rustfmt.toml") || p.has_file(".rustfmt.toml"),
        "Rust: rustfmt enforced (run `cargo fmt` after edits)",
    );
    let ghost b1 = text::views(hints@);
    match find_existing(p, &eslint) {
        Some(rc) => {
            let mut s = "ESLint configured (".to_owned();
            s.append(rc);
            s.append(") — run `eslint --fix` after edits");
            hints.push(s);
            assert(text::views(hints@) =~= b1 + seq![s@]);
        },
        None => {
            assert(b1 + Seq::<Seq<char>>::empty() =~= b1);
        },
    }
    push_when(
        &mut hints,
        find_existing(p, &prettier).is_some(),
        "Prettier configured — run `prettier --write` after edits",
    );
    push_when(
        &mut hints,
        does_hold(p, "pyproject.toml", "[tool.ruff]") || p.has_file("ruff.toml") || p.has_file(
            ".ruff.toml",
        ),
        "Ruff linter configured — run `ruff check --fix` after edits",
    );
    push_when(
        &mut hints,
        does_hold(p, ".cargo/config.toml", "clippy"),
        "Clippy configured — run `cargo clippy` to check",
    );
    assert(text::views(hints@) =~= style_of(*p));
    hints
}

// ── The whole ────────────────────────────────────────────────────────────────

/// The first lines of the first of the files that can be read.
pub open spec fn first_lines(p: ProjectFiles, names: Seq<Seq<char>>, n: int) -> Option<Seq<char>>
    decreases names.len(),
{
    if names.len() == 0 {
        None
    } else {
        match p.content(names[0]) {
            Some(c) => {
                let ls = pieces::lines(c);
                Some(
                    pieces::join(
                        if ls.len() > n {
                            ls.take(n)
                        } else {
                            ls
                        },
                        "\n"@,
                    ),
                )
            },
            None => first_lines(p, names.skip(1), n),
        }
    }
}

/// The first lines of the first of the files that can be read.
pub fn read_first_lines(p: &ProjectFiles, candidates: &[&str], n: usize) -> (r: Option<String>)
    ensures
        text::opt_text(r) == first_lines(*p, text::texts(candidates@), n as int),
{
    let ghost cv = text::texts(candidates@);
    let mut i: usize = 0;
    assert(cv.skip(0) =~= cv);
    while i < candidates.len()
        invariant
            i <= candidates.len(),
            cv == text::texts(candidates@),
            first_lines(*p, cv, n as int) == first_lines(*p, cv.skip(i as int), n as int),
        decreases candidates.len() - i,
    {
        assert(cv.skip(i as int)[0] == candidates@[i as int]@);
        assert(cv.skip(i as int).skip(1) =~= cv.skip(i + 1));
        if let Some(c) = p.read(candidates[i]) {
            let mut ls = lines_of(c.as_str());
            let ghost lv = text::views(ls@);
            assert(lv.len() == ls@.len());
            if ls.len() > n {
                ls.truncate(n);
                assert(text::views(ls@) =~= lv.take(n as int));
            }
            return Some(join_with(&ls, "\n"));
        }
        i += 1;
    }
    None
}

pub open spec fn readme_names() -> Seq<Seq<char>> {
    seq!["README.md"@, "readme.md"@, "Readme.md"@]
}

/// A line with a label, where there is something to say.
pub open spec fn labelled(label: Seq<char>, value: Seq<char>, end: Seq<char>) -> Seq<char> {
    if value.len() > 0 {
        label + value + end
    } else {
        Seq::empty()
    }
}

pub open spec fn hint_lines(hints: Seq<Seq<char>>) -> Seq<char>
    decreases hints.len(),
{
    if hints.len() == 0 {
        Seq::empty()
    } else {
        hint_lines(hints.drop_last()) + "- "@ + hints.last() + "\n"@
    }
}

/// The conventions of a project: what it is, its style, the start of its
/// README, and the conventions that it has already, in the first of the
/// files that may hold them.
pub open spec fn conventions_of(p: ProjectFiles, holders: Seq<Seq<char>>) -> Seq<char> {
    let m = manifest_of(p);
    let style = style_of(p);
    "# Project: "@ + m.name + "\n"@ + labelled("Language: "@, m.language, "\n"@) + labelled(
        "Test runner: `"@,
        m.test_runner,
        "`\n"@,
    ) + labelled("Key dependencies: "@, m.deps, "\n"@) + (if style.len() > 0 {
        "\n## Style\n"@ + hint_lines(style)
    } else {
        Seq::empty()
    }) + (match first_lines(p, readme_names(), 50) {
        Some(r) => "\n## README (first 50 lines)\n"@ + r + "\n"@,
        None => Seq::empty(),
    }) + (match first_existing(p, holders) {
        Some(name) => match p.content(name) {
            Some(c) => "\n## Existing conventions (from "@ + name + ")\n"@ + c,
            None => Seq::empty(),
        },
        None => Seq::empty(),
    })
}

fn label_line(label: &str, value: &str, end: &str) -> (r: String)
    ensures
        r@ == labelled(label@, value@, end@),
{
    if count(value) > 0 {
        let mut s = label.to_owned();
        s.append(value);
        s.append(end);
        s
    } else {
        String::new()
    }
}

fn list_hints(hints: &Vec<String>) -> (r: String)
    ensures
        r@ == hint_lines(text::views(hints@)),
{
    let ghost hv = text::views(hints@);
    let mut out = String::new();
    let mut i: usize = 0;
    assert(hv.take(0) =~= Seq::<Seq<char>>::empty());
    while i < hints.len()
        invariant
            i <= hints.len(),
            hv == text::views(hints@),
            out@ == hint_lines(hv.take(i as int)),
        decreases hints.len() - i,
    {
        assert(hv.take(i + 1).drop_last() =~= hv.take(i as int));
        assert(hv.take(i + 1).last() == hints@[i as int]@);
        out.append("- ");
        out.append(hints[i].as_str());
        out.append("\n");
        i += 1;
    }
    assert(hv.take(i as int) =~= hv);
    out
}

/// The conventions of a project, out of its files. `other` is the file in
/// which another agent keeps its conventions.
pub fn run_project_init(p: &ProjectFiles, other: &str) -> (r: String)
    ensures
        r@ == conventions_of(*p, agent::convention_names(other@)),
{
    let m = detect_project_manifest(p);
    let mut out = "# Project: ".to_owned();
    out.append(m.name.as_str());
    out.append("\n");
    out.append(label_line("Language: ", m.language.as_str(), "\n").as_str());
    out.append(label_line("Test runner: `", m.test_runner.as_str(), "`\n").as_str());
    out.append(label_line("Key dependencies: ", m.deps.as_str(), "\n").as_str());
    let style = detect_style(p);
    assert(text::views(style@).len() == style@.len());
    let mut section = String::new();
    if style.len() > 0 {
        section.append("\n## Style\n");
        section.append(list_hints(&style).as_str());
        assert(section@ =~= "\n## Style\n"@ + hint_lines(text::views(style@)));
    }
    out.append(section.as_str());
    let readmes = ["README.md", "readme.md", "Readme.md"];
    assert(text::texts(readmes@) =~= readme_names());
    let mut readme = String::new();
    if let Some(r) = read_first_lines(p, &readmes, 50) {
        readme.append("\n## README (first 50 lines)\n");
        readme.append(r.as_str());
        readme.append("\n");
        assert(readme@ =~= "\n## README (first 50 lines)\n"@ + r@ + "\n"@);
    }
    out.append(readme.as_str());
    let mut had = String::new();
    if let Some(name) = find_existing(p, &convention_files(other)) {
        if let Some(c) = p.read(name) {
            had.append("\n## Existing conventions (from ");
            had.append(name);
            had.append(")\n");
            had.append(c.as_str());
            assert(had@ =~= "\n## Existing conventions (from "@ + name@ + ")\n"@ + c@);
        }
    }
    out.append(had.as_str());
    out
}

/// The first line that begins with what is looked for gives what stands behind
/// it.
pub proof fn first_line_gives_the_value(ls: Seq<Seq<char>>, needle: Seq<char>, i: int)
    requires
        0 <= i <= ls.len(),
        forall|k: int| 0 <= k < i ==> !text::begins(text::trim(#[trigger] ls[k]), needle),
    ensures
        i == ls.len() ==> behind_first(ls, needle) is None,
        i < ls.len() && text::begins(text::trim(ls[i]), needle) ==> behind_first(ls, needle) == Some(
            text::trim(text::trim(ls[i]).skip(needle.len() as int)),
        ),
    decreases ls.len(),
{
    if i > 0 {
        let t = ls.skip(1);
        assert forall|k: int| 0 <= k < i - 1 implies !text::begins(text::trim(#[trigger] t[k]), needle) by {
            assert(t[k] == ls[k + 1]);
        }
        first_line_gives_the_value(t, needle, i - 1);
        assert(!text::begins(text::trim(ls[0]), needle));
        if i < ls.len() {
            assert(t[i - 1] == ls[i]);
        }
    }
}

proof fn lines_outside(
    pre: Seq<Seq<char>>,
    rest: Seq<Seq<char>>,
    f: spec_fn(Seq<char>) -> DepLine,
)
    requires
        forall|k: int| 0 <= k < pre.len() ==> !(f(text::trim(#[trigger] pre[k])) is Opens),
    ensures
        deps(pre + rest, false, f) == deps(rest, false, f),
    decreases pre.len(),
{
    if pre.len() > 0 {
        let t = pre.skip(1);
        assert forall|k: int| 0 <= k < t.len() implies !(f(text::trim(#[trigger] t[k])) is Opens) by {
            assert(t[k] == pre[k + 1]);
        }
        lines_outside(t, rest, f);
        assert((pre + rest).skip(1) =~= t + rest);
        assert((pre + rest)[0] == pre[0]);
    } else {
        assert(pre + rest =~= rest);
    }
}

proof fn lines_inside(
    body: Seq<Seq<char>>,
    names: Seq<Seq<char>>,
    rest: Seq<Seq<char>>,
    f: spec_fn(Seq<char>) -> DepLine,
)
    requires
        body.len() == names.len(),
        forall|k: int|
            0 <= k < body.len() ==> f(text::trim(#[trigger] body[k])) == DepLine::Names(Some(names[k])),
    ensures
        deps(body + rest, true, f) == names + deps(rest, true, f),
    decreases body.len(),
{
    if body.len() > 0 {
        let t = body.skip(1);
        let n = names.skip(1);
        assert forall|k: int| 0 <= k < t.len() implies f(text::trim(#[trigger] t[k]))
            == DepLine::Names(Some(n[k])) by {
            assert(t[k] == body[k + 1] && n[k] == names[k + 1]);
        }
        lines_inside(t, n, rest, f);
        assert((body + rest).skip(1) =~= t + rest);
        assert((body + rest)[0] == body[0]);
        assert(f(text::trim(body[0])) == DepLine::Names(Some(names[0])));
        assert(seq![names[0]] + (n + deps(rest, true, f)) =~= names + deps(rest, true, f));
    } else {
        assert(body + rest =~= rest);
        assert(names + deps(rest, true, f) =~= deps(rest, true, f));
    }
}

/// The dependencies are the names between the line that opens their section
/// and the one that closes it: nothing before it, and nothing behind it.
pub proof fn dependencies_stand_in_their_section(
    pre: Seq<Seq<char>>,
    open: Seq<char>,
    body: Seq<Seq<char>>,
    names: Seq<Seq<char>>,
    close: Seq<char>,
    rest: Seq<Seq<char>>,
    f: spec_fn(Seq<char>) -> DepLine,
)
    requires
        forall|k: int| 0 <= k < pre.len() ==> !(f(text::trim(#[trigger] pre[k])) is Opens),
        f(text::trim(open)) is Opens,
        body.len() == names.len(),
        forall|k: int|
            0 <= k < body.len() ==> f(text::trim(#[trigger] body[k])) == DepLine::Names(Some(names[k])),
        f(text::trim(close)) is Closes,
    ensures
        deps(pre + (seq![open] + (body + (seq![close] + rest))), false, f) == names,
{
    let d = seq![close] + rest;
    let c = body + d;
    let b = seq![open] + c;
    lines_outside(pre, b, f);
    assert(b[0] == open);
    assert(b.skip(1) =~= c);
    lines_inside(body, names, d, f);
    assert(d[0] == close);
    assert(deps(d, true, f) =~= Seq::empty());
    assert(names + deps(d, true, f) =~= names);
}

/// A line of a manifest names what stands in front of the sign; a comment and
/// another section name nothing.
pub proof fn manifest_lines_name(name: Seq<char>, value: Seq<char>)
    requires
        name.len() > 0,
        !name.contains('='),
        !text::is_white(name[0]),
        !text::is_white(name.last()),
        name[0] != '[' && name[0] != '#',
    ensures
        cargo_line(name + " = "@ + value) == DepLine::Names(Some(name)),
        cargo_line("[dependencies]"@) == DepLine::Opens,
        value != "dependencies]"@ ==> cargo_line("["@ + value) == DepLine::Closes,
{
    reveal_strlit(" = ");
    reveal_strlit("=");
    reveal_strlit("[");
    reveal_strlit("#");
    reveal_strlit(" ");
    reveal_strlit("[dependencies]");
    reveal_strlit("dependencies]");
    let t = name + " = "@ + value;
    let a = name + " "@;
    let rest = " "@ + value;
    assert(t =~= a + "="@ + rest);
    text::find_is_first(a, "="@);
    if text::contains(a, "="@) {
        let i = choose|i: int| text::occurs_at(a, "="@, i);
        assert(a.subrange(i, i + 1)[0] == a[i]);
        if i < name.len() {
            assert(name[i] == '=');
        }
    }
    pieces::split_at_sign(a, "="@, rest);
    assert(pieces::before_text(t, "="@) == a);
    text::lead_bound(a, CharSet::White, true);
    assert(a[0] == name[0]);
    assert(text::lead(a, CharSet::White, true) == 0);
    assert(a.skip(0) =~= a);
    text::trail_bound(a, CharSet::White);
    assert(a[a.len() - 1] == ' ' && a[a.len() - 2] == name.last());
    assert(text::trail(a, CharSet::White) == 1) by {
        if text::trail(a, CharSet::White) == 0 {
            assert(!text::in_set(CharSet::White, a[a.len() - 1]));
        }
        if text::trail(a, CharSet::White) > 1 {
            assert(text::in_set(CharSet::White, a[a.len() - 2]));
        }
    }
    assert(a.take(a.len() - 1) =~= name);
    assert(text::trim(a) == name);
    assert(t[0] == name[0]);
    if text::begins(t, "["@) {
        assert(t.subrange(0, 1)[0] == t[0]);
    }
    if text::begins(name, "#"@) {
        assert(name.subrange(0, 1)[0] == name[0]);
    }
    assert("[dependencies]"@[0] == '[');
    let s = "["@ + value;
    assert(s.subrange(0, 1) =~= "["@);
    if s == "[dependencies]"@ {
        assert(value =~= s.skip(1));
        assert(s.skip(1) =~= "dependencies]"@);
    }
}

/// The first name that is there is taken.
pub proof fn first_present_is_taken(p: ProjectFiles, names: Seq<Seq<char>>, i: int)
    requires
        0 <= i <= names.len(),
        forall|k: int| 0 <= k < i ==> !p.files@.dom().contains(#[trigger] names[k]),
    ensures
        i == names.len() ==> first_existing(p, names) is None,
        i < names.len() && p.files@.dom().contains(names[i]) ==> first_existing(p, names) == Some(
            names[i],
        ),
    decreases names.len(),
{
    if i > 0 {
        let t = names.skip(1);
        assert forall|k: int| 0 <= k < i - 1 implies !p.files@.dom().contains(#[trigger] t[k]) by {
            assert(t[k] == names[k + 1]);
        }
        first_present_is_taken(p, t, i - 1);
        assert(!p.files@.dom().contains(names[0]));
        if i < names.len() {
            assert(t[i - 1] == names[i]);
        }
    }
}

/// The kind of a project goes by the first manifest that can be read: that of
/// Rust, of Node, of Python, of Go.
pub proof fn first_manifest_decides(p: ProjectFiles)
    ensures
        ({
            let rust = p.content("Cargo.toml"@) is Some;
            let node = p.content("package.json"@) is Some;
            let python = p.content("pyproject.toml"@) is Some;
            let go = p.content("go.mod"@) is Some;
            let m = manifest_of(p);
            &&& rust ==> m.language == "Rust"@ && m.test_runner == "cargo test"@
            &&& !rust && node ==> m.language == node_language(p)
            &&& !rust && !node && python ==> m.language == "Python"@
            &&& !rust && !node && !python && go ==> m.language == "Go"@ && m.test_runner
                == "go test ./..."@
            &&& !rust && !node && !python && !go ==> m.language.len() == 0 && m.test_runner.len() == 0
        }),
{
}

/// A setting is read without its quotes.
pub proof fn settings_are_read(
    ls: Seq<Seq<char>>,
    content: Seq<char>,
    field: Seq<char>,
    value: Seq<char>,
    i: int,
)
    requires
        pieces::lines(content) == ls,
        0 <= i < ls.len(),
        forall|k: int| 0 <= k < i ==> !text::begins(text::trim(#[trigger] ls[k]), field + " = "@),
        text::trim(ls[i]) == field + " = "@ + (seq!['"'] + value + seq!['"']),
        value.len() > 0,
        value[0] != '"' && value.last() != '"',
    ensures
        toml_value(content, field) == Some(value),
{
    reveal_strlit("\"");
    let needle = field + " = "@;
    let v = seq!['"'] + value + seq!['"'];
    let t = text::trim(ls[i]);
    assert(t == needle + v);
    assert(t.subrange(0, needle.len() as int) =~= needle);
    assert(t.skip(needle.len() as int) =~= v);
    first_line_gives_the_value(ls, needle, i);
    text::lead_bound(v, CharSet::White, true);
    assert(v[0] == '"' && v.last() == '"');
    assert(text::lead(v, CharSet::White, true) == 0);
    assert(v.skip(0) =~= v);
    assert(v.take(v.len() as int) =~= v);
    assert(text::trim(v) == v);
    let cs = CharSet::OneOf("\"");
    let q = "\""@;
    assert(q[0] == '"');
    assert(q.contains('"'));
    assert(!q.contains(value[0]));
    assert(!q.contains(value.last()));
    text::lead_bound(v, cs, true);
    assert(v[1] == value[0]);
    assert(text::lead(v, cs, true) == 1);
    let u = v.skip(1);
    assert(u =~= value + seq!['"']);
    text::trail_bound(u, cs);
    assert(u[u.len() - 1] == '"' && u[u.len() - 2] == value.last());
    assert(text::trail(u, cs) == 1) by {
        if text::trail(u, cs) == 0 {
            assert(!text::in_set(cs, u[u.len() - 1]));
        }
        if text::trail(u, cs) > 1 {
            assert(text::in_set(cs, u[u.len() - 2]));
        }
    }
    assert(u.take(u.len() - 1) =~= value);
}

/// Eight dependencies are named at most, the first ones.
pub proof fn eight_are_named(names: Seq<Seq<char>>)
    ensures
        names.len() <= 8 ==> eight(names) == pieces::join(names, ", "@),
        names.len() > 8 ==> eight(names) == pieces::join(names.subrange(0, 8), ", "@),
{
}

/// The first file that can be read is shown, its first lines.
pub proof fn first_readable_is_shown(p: ProjectFiles, names: Seq<Seq<char>>, n: int, i: int)
    requires
        0 <= n,
        0 <= i <= names.len(),
        forall|k: int| 0 <= k < i ==> p.content(#[trigger] names[k]) is None,
    ensures
        i == names.len() ==> first_lines(p, names, n) is None,
        i < names.len() ==> (p.content(names[i]) matches Some(c) ==> first_lines(p, names, n) == Some(
            pieces::join(
                if pieces::lines(c).len() > n {
                    pieces::lines(c).take(n)
                } else {
                    pieces::lines(c)
                },
                "\n"@,
            ),
        )),
    decreases names.len(),
{
    if i > 0 {
        let t = names.skip(1);
        assert forall|k: int| 0 <= k < i - 1 implies p.content(#[trigger] t[k]) is None by {
            assert(t[k] == names[k + 1]);
        }
        first_readable_is_shown(p, t, n, i - 1);
        assert(p.content(names[0]) is None);
        if i < names.len() {
            assert(t[i - 1] == names[i]);
        }
    }
}

proof fn name_in_quotes(name: Seq<char>, cs: CharSet<'_>)
    requires
        name.len() > 0,
        text::in_set(cs, '"'),
        !text::in_set(cs, name[0]),
        !text::in_set(cs, name.last()),
    ensures
        text::trim_set(seq!['"'] + name + seq!['"'], cs) == name,
{
    let v = seq!['"'] + name + seq!['"'];
    text::lead_bound(v, cs, true);
    assert(v[0] == '"' && v[1] == name[0]);
    assert(text::lead(v, cs, true) == 1) by {
        if text::lead(v, cs, true) > 1 {
            assert(text::in_set(cs, v[1]) == true);
        }
    }
    let u = v.skip(1);
    assert(u =~= name + seq!['"']);
    text::trail_bound(u, cs);
    assert(u[u.len() - 1] == '"' && u[u.len() - 2] == name.last());
    assert(text::trail(u, cs) == 1) by {
        if text::trail(u, cs) > 1 {
            assert(text::in_set(cs, u[u.len() - 2]));
        }
    }
    assert(u.take(u.len() - 1) =~= name);
}

/// A line of a package names what stands in quotes in front of the colon.
pub proof fn package_lines_name(name: Seq<char>, rest: Seq<char>)
    requires
        name.len() > 0,
        !name.contains(':'),
        !name.contains('"'),
        !text::contains(seq!['"'] + name + seq!['"'] + ":"@ + rest, "\"dependencies\""@),
    ensures
        npm_line(seq!['"'] + name + seq!['"'] + ":"@ + rest) == DepLine::Names(Some(name)),
        npm_line("}"@) == DepLine::Closes,
        npm_line("},"@) == DepLine::Closes,
{
    reveal_strlit(":");
    reveal_strlit("\"");
    reveal_strlit("}");
    reveal_strlit("},");
    reveal_strlit("\"dependencies\"");
    let q = seq!['"'] + name + seq!['"'];
    let t = q + ":"@ + rest;
    assert(!q.contains(':')) by {
        if q.contains(':') {
            let i = q.index_of(':');
            assert(0 < i < q.len() - 1);
            assert(name[i - 1] == ':');
        }
    }
    text::found_nowhere(q, ":"@);
    pieces::split_at_sign(q, ":"@, rest);
    assert(pieces::before_text(t, ":"@) == q);
    text::lead_bound(q, CharSet::White, true);
    assert(q[0] == '"' && q.last() == '"');
    assert(text::lead(q, CharSet::White, true) == 0);
    assert(q.skip(0) =~= q);
    assert(q.take(q.len() as int) =~= q);
    assert(text::trim(q) == q);
    assert("\""@[0] == '"');
    assert("\""@.contains('"'));
    assert(name.contains(name[0]) && name.contains(name.last()));
    name_in_quotes(name, CharSet::OneOf("\""));
    assert(t[0] == '"');
    text::found_nowhere("}"@, "\"dependencies\""@);
    text::found_nowhere("},"@, "\"dependencies\""@);
}

/// Tests are run by the tool that is configured, and by the plain one where
/// none is.
pub proof fn tests_are_run_by_their_tool(p: ProjectFiles, pkg: Seq<char>)
    ensures
        p.files@.dom().contains("jest.config.js"@) ==> node_tests(p, pkg) == "npx jest"@,
        (forall|n: Seq<char>| !(#[trigger] p.files@.dom().contains(n))) && !text::contains(
            pkg,
            "\"jest\""@,
        ) ==> node_tests(p, pkg) == if text::contains(pkg, "\"vitest\""@) {
            "npx vitest"@
        } else {
            "npm test"@
        },
        python_tests(p) == "pytest"@ <==> p.files@.dom().contains("pytest.ini"@)
            || p.files@.dom().contains("setup.cfg"@) || p.files@.dom().contains("conftest.py"@),
        python_tests(p) == "pytest"@ || python_tests(p) == "python -m pytest"@,
{
    reveal_strlit("pytest");
    reveal_strlit("python -m pytest");
    assert("pytest"@.len() != "python -m pytest"@.len());
}

/// Each hint of style is a line of its own.
pub proof fn hints_are_listed(a: Seq<Seq<char>>, b: Seq<Seq<char>>, h: Seq<char>)
    ensures
        hint_lines(Seq::empty()) == Seq::<char>::empty(),
        hint_lines(seq![h]) == "- "@ + h + "\n"@,
        hint_lines(a + b) == hint_lines(a) + hint_lines(b),
    decreases b.len(),
{
    reveal_with_fuel(hint_lines, 2);
    assert(seq![h].drop_last() =~= Seq::empty());
    assert(hint_lines(seq![h]) =~= "- "@ + h + "\n"@);
    if b.len() == 0 {
        assert(a + b =~= a);
        assert(hint_lines(a + b) =~= hint_lines(a) + hint_lines(b));
    } else {
        hints_are_listed(a, b.drop_last(), h);
        assert((a + b).drop_last() =~= a + b.drop_last());
        assert(hint_lines(a + b) =~= hint_lines(a) + hint_lines(b));
    }
}

} // verus!
