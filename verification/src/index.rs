//! The symbols of a project's source files.

use crate::names::NameMap;
use crate::number;
use crate::number::byte_len;
use crate::order;
use crate::order::{comes_before, sort_by};
use crate::paths;
use crate::paths::extension_of;
use crate::pieces;
use crate::pieces::{
    before_first, join_with, lines_of, split_by, trim_front_text, words_of,
};
use crate::text;
use crate::text::{
    begins_with, char_is_white, count, cut, find_str, finishes_with, holds, one_of, rfind_set, rfind_str,
    same, strip_prefix, take_chars, to_chars, trim_back_by, trim_front_by, trimmed, without_first,
    lead_chars, CharSet,
};
use vstd::prelude::*;

verus! {

broadcast use crate::text::views_push;

/// A call, or a construction, that a symbol makes.
#[derive(Debug)]
pub struct CallEdge {
    /// What is called.
    pub callee: String,
    /// The line of the first such call.
    pub call_line: usize,
}

#[derive(Debug, Clone, Copy, PartialEq, Eq, Structural)]
pub enum SymbolKind {
    Function,
    Struct,
    Enum,
    Trait,
    Impl,
    Class,
    Method,
    Constant,
    Other,
}

/// A top-level symbol.
#[derive(Debug)]
pub struct Symbol {
    pub name: String,
    pub file: String,
    pub line: usize,
    /// The last line of the symbol's body.
    pub end_line: usize,
    pub kind: SymbolKind,
    /// A short form of the symbol's interface.
    pub signature: Option<String>,
}

/// What a `Symbol` says.
#[verifier::ext_equal]
pub struct SymbolView {
    pub name: Seq<char>,
    pub file: Seq<char>,
    pub line: int,
    pub end_line: int,
    pub kind: SymbolKind,
    pub signature: Option<Seq<char>>,
}

impl View for Symbol {
    type V = SymbolView;

    open spec fn view(&self) -> SymbolView {
        SymbolView {
            name: self.name@,
            file: self.file@,
            line: self.line as int,
            end_line: self.end_line as int,
            kind: self.kind,
            signature: text::opt_text(self.signature),
        }
    }
}

impl Clone for Symbol {
    fn clone(&self) -> (r: Self)
        ensures
            r@ == self@,
    {
        Symbol {
            name: self.name.clone(),
            file: self.file.clone(),
            line: self.line,
            end_line: self.end_line,
            kind: self.kind,
            signature: match &self.signature {
                Some(s) => Some(s.clone()),
                None => None,
            },
        }
    }
}

pub open spec fn symbol_views(v: Seq<Symbol>) -> Seq<SymbolView> {
    Seq::new(v.len(), |i: int| v[i]@)
}

pub open spec fn label(k: SymbolKind) -> Seq<char> {
    match k {
        SymbolKind::Function => "fn"@,
        SymbolKind::Struct => "struct"@,
        SymbolKind::Enum => "enum"@,
        SymbolKind::Trait => "trait"@,
        SymbolKind::Impl => "impl"@,
        SymbolKind::Class => "class"@,
        SymbolKind::Method => "method"@,
        SymbolKind::Constant => "const"@,
        SymbolKind::Other => "def"@,
    }
}

impl SymbolKind {
    pub fn label(&self) -> (r: &'static str)
        ensures
            r@ == label(*self),
    {
        match self {
            SymbolKind::Function => "fn",
            SymbolKind::Struct => "struct",
            SymbolKind::Enum => "enum",
            SymbolKind::Trait => "trait",
            SymbolKind::Impl => "impl",
            SymbolKind::Class => "class",
            SymbolKind::Method => "method",
            SymbolKind::Constant => "const",
            SymbolKind::Other => "def",
        }
    }
}

// ── Identifiers ──────────────────────────────────────────────────────────────

/// Whether `s` is an identifier.
pub open spec fn identifier(s: Seq<char>) -> bool {
    &&& s.len() > 0
    &&& text::alphabetic(s[0]) || s[0] == '_'
    &&& forall|i: int| 0 <= i < s.len() ==> text::alphanumeric(#[trigger] s[i]) || s[i] == '_'
}

pub fn is_ident(s: &str) -> (r: bool)
    ensures
        r == identifier(s@),
{
    let v = to_chars(s);
    if v.len() == 0 || !(v[0].is_alphabetic() || v[0] == '_') {
        return false;
    }
    let mut i: usize = 0;
    while i < v.len()
        invariant
            i <= v.len(),
            v@ == s@,
            forall|k: int| 0 <= k < i ==> text::alphanumeric(#[trigger] s@[k]) || s@[k] == '_',
        decreases v.len() - i,
    {
        if !(v[i].is_alphanumeric() || v[i] == '_') {
            assert(!(text::alphanumeric(s@[i as int]) || s@[i as int] == '_'));
            return false;
        }
        i += 1;
    }
    true
}

/// The identifier at the front of `s`, white space aside.
pub open spec fn leading_ident(s: Seq<char>) -> Option<Seq<char>> {
    let t = text::trim(s);
    let name = t.take(text::lead(t, CharSet::NotWord, false) as int);
    if identifier(name) {
        Some(name)
    } else {
        None
    }
}

/// The identifier at the front of `s`.
pub fn ident_at_start(s: &str) -> (r: Option<String>)
    ensures
        text::opt_text(r) == leading_ident(s@),
{
    let t = trimmed(s);
    let v = to_chars(t.as_str());
    assert(v@.skip(0) =~= v@);
    let n: usize = lead_chars(&v, 0, CharSet::NotWord, false);
    let name = cut(t.as_str(), 0, n);
    assert(name@ =~= t@.take(n as int));
    if is_ident(name.as_str()) {
        Some(name)
    } else {
        None
    }
}

/// What stands behind the first of the prefixes that `s` has.
pub open spec fn behind_any(s: Seq<char>, prefixes: Seq<Seq<char>>) -> Option<Seq<char>>
    decreases prefixes.len(),
{
    if prefixes.len() == 0 {
        None
    } else {
        match text::behind(s, prefixes[0]) {
            Some(r) => Some(r),
            None => behind_any(s, prefixes.skip(1)),
        }
    }
}

pub fn strip_prefix_variants(s: &str, prefixes: &[&str]) -> (r: Option<String>)
    ensures
        text::opt_text(r) == behind_any(s@, text::texts(prefixes@)),
{
    let mut i: usize = 0;
    let ghost all = text::texts(prefixes@);
    assert(all.skip(0) =~= all);
    while i < prefixes.len()
        invariant
            i <= prefixes.len(),
            all == text::texts(prefixes@),
            behind_any(s@, all) == behind_any(s@, all.skip(i as int)),
        decreases prefixes.len() - i,
    {
        let r = strip_prefix(s, prefixes[i]);
        assert(all.skip(i as int)[0] == prefixes@[i as int]@);
        if r.is_some() {
            return r;
        }
        assert(all.skip(i as int).skip(1) =~= all.skip(i + 1));
        i += 1;
    }
    None
}

// ── One line ─────────────────────────────────────────────────────────────────

/// A symbol of the kind, where `rest` begins with an identifier.
pub open spec fn named(kind: SymbolKind, rest: Seq<char>) -> Option<(SymbolKind, Seq<char>)> {
    match leading_ident(rest) {
        Some(n) => Some((kind, n)),
        None => None,
    }
}

pub open spec fn found(r: Option<(SymbolKind, String)>) -> Option<(SymbolKind, Seq<char>)> {
    match r {
        Some((k, n)) => Some((k, n@)),
        None => None,
    }
}

fn with_name(kind: SymbolKind, rest: &str) -> (r: Option<(SymbolKind, String)>)
    ensures
        found(r) == named(kind, rest@),
{
    match ident_at_start(rest) {
        Some(n) => Some((kind, n)),
        None => None,
    }
}

pub open spec fn fn_prefixes() -> Seq<Seq<char>> {
    seq![
        "pub async fn "@,
        "pub(crate) async fn "@,
        "async fn "@,
        "pub fn "@,
        "pub(crate) fn "@,
        "fn "@,
    ]
}

/// The type of an `impl`: what follows ` for `, or the first name; generic
/// parameters are skipped.
pub open spec fn impl_target(rest: Seq<char>) -> Option<(SymbolKind, Seq<char>)> {
    let r = text::trim_start_set(rest, CharSet::White);
    if text::begins(r, "<"@) {
        match text::find(r, ">"@) {
            Some(i) => impl_name(text::trim(r.skip(i + 1))),
            None => None,
        }
    } else {
        impl_name(r)
    }
}

pub open spec fn impl_name(r: Seq<char>) -> Option<(SymbolKind, Seq<char>)> {
    if text::contains(r, " for "@) {
        named(SymbolKind::Impl, pieces::split_text(r, " for "@)[1])
    } else {
        named(SymbolKind::Impl, r)
    }
}

/// The symbol that a line of Rust defines.
pub open spec fn rust_symbol(line: Seq<char>) -> Option<(SymbolKind, Seq<char>)> {
    if let Some(rest) = behind_any(line, fn_prefixes()) {
        named(SymbolKind::Function, rest)
    } else if let Some(rest) = behind_any(
        line,
        seq!["pub struct "@, "pub(crate) struct "@, "struct "@],
    ) {
        named(SymbolKind::Struct, rest)
    } else if let Some(rest) = behind_any(line, seq!["pub enum "@, "pub(crate) enum "@, "enum "@]) {
        named(SymbolKind::Enum, rest)
    } else if let Some(rest) = behind_any(line, seq!["pub trait "@, "pub(crate) trait "@, "trait "@]) {
        named(SymbolKind::Trait, rest)
    } else if let Some(rest) = text::behind(line, "impl"@) {
        impl_target(rest)
    } else if let Some(rest) = behind_any(line, seq!["pub const "@, "const "@]) {
        named(SymbolKind::Constant, rest)
    } else {
        None
    }
}

proof fn for_splits(r: Seq<char>)
    requires
        text::contains(r, " for "@),
    ensures
        pieces::split_text(r, " for "@).len() >= 2,
{
    reveal_strlit(" for ");
    text::find_is_first(r, " for "@);
    let i = text::find(r, " for "@)->0;
    let rest = r.skip(i + 5);
    assert(pieces::split_text(r, " for "@) == seq![r.take(i)] + pieces::split_text(rest, " for "@));
    assert(pieces::split_text(rest, " for "@).len() >= 1);
}

fn name_of_impl(r: &str) -> (o: Option<(SymbolKind, String)>)
    ensures
        found(o) == impl_name(r@),
{
    if holds(r, " for ") {
        proof {
            for_splits(r@);
            reveal_strlit(" for ");
        }
        let parts = pieces::split_at_text(r, " for ");
        assert(text::views(parts@)[1] == parts@[1]@);
        with_name(SymbolKind::Impl, parts[1].as_str())
    } else {
        with_name(SymbolKind::Impl, r)
    }
}

/// The symbol that a line of Rust defines.
pub fn extract_rust(line: &str) -> (r: Option<(SymbolKind, String)>)
    ensures
        found(r) == rust_symbol(line@),
{
    let fns = [
        "pub async fn ",
        "pub(crate) async fn ",
        "async fn ",
        "pub fn ",
        "pub(crate) fn ",
        "fn ",
    ];
    assert(text::texts(fns@) =~= fn_prefixes());
    if let Some(rest) = strip_prefix_variants(line, &fns) {
        return with_name(SymbolKind::Function, rest.as_str());
    }
    let structs = ["pub struct ", "pub(crate) struct ", "struct "];
    assert(text::texts(structs@) =~= seq!["pub struct "@, "pub(crate) struct "@, "struct "@]);
    if let Some(rest) = strip_prefix_variants(line, &structs) {
        return with_name(SymbolKind::Struct, rest.as_str());
    }
    let enums = ["pub enum ", "pub(crate) enum ", "enum "];
    assert(text::texts(enums@) =~= seq!["pub enum "@, "pub(crate) enum "@, "enum "@]);
    if let Some(rest) = strip_prefix_variants(line, &enums) {
        return with_name(SymbolKind::Enum, rest.as_str());
    }
    let traits = ["pub trait ", "pub(crate) trait ", "trait "];
    assert(text::texts(traits@) =~= seq!["pub trait "@, "pub(crate) trait "@, "trait "@]);
    if let Some(rest) = strip_prefix_variants(line, &traits) {
        return with_name(SymbolKind::Trait, rest.as_str());
    }
    if let Some(rest) = strip_prefix(line, "impl") {
        let r = trim_front_by(rest.as_str(), CharSet::White);
        if begins_with(r.as_str(), "<") {
            proof {
                reveal_strlit(">");
            }
            match find_str(r.as_str(), ">") {
                Some(i) => {
                    let t = without_first(r.as_str(), i + 1);
                    let t = trimmed(t.as_str());
                    return name_of_impl(t.as_str());
                },
                None => {
                    return None;
                },
            }
        }
        return name_of_impl(r.as_str());
    }
    let consts = ["pub const ", "const "];
    assert(text::texts(consts@) =~= seq!["pub const "@, "const "@]);
    if let Some(rest) = strip_prefix_variants(line, &consts) {
        return with_name(SymbolKind::Constant, rest.as_str());
    }
    None
}

/// The symbol that a line of TypeScript or JavaScript defines.
pub open spec fn ts_symbol(line: Seq<char>) -> Option<(SymbolKind, Seq<char>)> {
    if let Some(rest) = behind_any(
        line,
        seq![
            "export async function "@,
            "export function "@,
            "async function "@,
            "function "@,
        ],
    ) {
        named(SymbolKind::Function, rest)
    } else if let Some(rest) = text::behind(line, "export default function "@) {
        match leading_ident(rest) {
            Some(n) => Some((SymbolKind::Function, n)),
            None => Some((SymbolKind::Function, "default"@)),
        }
    } else if let Some(rest) = behind_any(
        line,
        seq!["export class "@, "export abstract class "@, "class "@],
    ) {
        named(SymbolKind::Class, rest)
    } else if let Some(rest) = behind_any(line, seq!["export interface "@, "interface "@]) {
        named(SymbolKind::Struct, rest)
    } else if let Some(rest) = behind_any(line, seq!["export type "@]) {
        named(SymbolKind::Other, rest)
    } else if let Some(rest) = behind_any(
        line,
        seq!["export const "@, "export let "@, "const "@, "let "@],
    ) {
        if text::contains(line, "=>"@) || text::contains(line, "= async"@) || text::contains(
            line,
            "= function"@,
        ) {
            named(SymbolKind::Function, rest)
        } else {
            None
        }
    } else {
        None
    }
}

/// The symbol that a line of TypeScript or JavaScript defines.
pub fn extract_ts(line: &str) -> (r: Option<(SymbolKind, String)>)
    ensures
        found(r) == ts_symbol(line@),
{
    let fns = ["export async function ", "export function ", "async function ", "function "];
    assert(text::texts(fns@) =~= seq![
        "export async function "@,
        "export function "@,
        "async function "@,
        "function "@,
    ]);
    if let Some(rest) = strip_prefix_variants(line, &fns) {
        return with_name(SymbolKind::Function, rest.as_str());
    }
    if let Some(rest) = strip_prefix(line, "export default function ") {
        return match ident_at_start(rest.as_str()) {
            Some(n) => Some((SymbolKind::Function, n)),
            None => Some((SymbolKind::Function, "default".to_owned())),
        };
    }
    let classes = ["export class ", "export abstract class ", "class "];
    assert(text::texts(classes@) =~= seq!["export class "@, "export abstract class "@, "class "@]);
    if let Some(rest) = strip_prefix_variants(line, &classes) {
        return with_name(SymbolKind::Class, rest.as_str());
    }
    let interfaces = ["export interface ", "interface "];
    assert(text::texts(interfaces@) =~= seq!["export interface "@, "interface "@]);
    if let Some(rest) = strip_prefix_variants(line, &interfaces) {
        return with_name(SymbolKind::Struct, rest.as_str());
    }
    let types = ["export type "];
    assert(text::texts(types@) =~= seq!["export type "@]);
    if let Some(rest) = strip_prefix_variants(line, &types) {
        return with_name(SymbolKind::Other, rest.as_str());
    }
    let consts = ["export const ", "export let ", "const ", "let "];
    assert(text::texts(consts@) =~= seq!["export const "@, "export let "@, "const "@, "let "@]);
    if let Some(rest) = strip_prefix_variants(line, &consts) {
        if holds(line, "=>") || holds(line, "= async") || holds(line, "= function") {
            return with_name(SymbolKind::Function, rest.as_str());
        }
    }
    None
}

/// The symbol that a line of Python defines.
pub open spec fn python_symbol(line: Seq<char>) -> Option<(SymbolKind, Seq<char>)> {
    if let Some(rest) = behind_any(line, seq!["async def "@, "def "@]) {
        named(SymbolKind::Function, rest)
    } else if let Some(rest) = text::behind(line, "class "@) {
        named(SymbolKind::Class, rest)
    } else {
        None
    }
}

/// The symbol that a line of Python defines.
pub fn extract_python(line: &str) -> (r: Option<(SymbolKind, String)>)
    ensures
        found(r) == python_symbol(line@),
{
    let defs = ["async def ", "def "];
    assert(text::texts(defs@) =~= seq!["async def "@, "def "@]);
    if let Some(rest) = strip_prefix_variants(line, &defs) {
        return with_name(SymbolKind::Function, rest.as_str());
    }
    if let Some(rest) = strip_prefix(line, "class ") {
        return with_name(SymbolKind::Class, rest.as_str());
    }
    None
}

/// The symbol that a line of Go defines. The receiver of a method is
/// skipped, with the one-byte character behind its parenthesis.
pub open spec fn go_symbol(line: Seq<char>) -> Option<(SymbolKind, Seq<char>)> {
    if let Some(rest) = text::behind(line, "func "@) {
        if text::begins(rest, "("@) {
            match text::find(rest, ")"@) {
                Some(i) => if i + 1 < rest.len() && number::char_width(rest[i + 1]) == 1 {
                    named(SymbolKind::Method, rest.skip(i + 2))
                } else {
                    None
                },
                None => None,
            }
        } else {
            named(SymbolKind::Function, rest)
        }
    } else if let Some(rest) = behind_any(line, seq!["type "@]) {
        named(SymbolKind::Struct, rest)
    } else {
        None
    }
}

/// The symbol that a line of Go defines.
pub fn extract_go(line: &str) -> (r: Option<(SymbolKind, String)>)
    ensures
        found(r) == go_symbol(line@),
{
    if let Some(rest) = strip_prefix(line, "func ") {
        if begins_with(rest.as_str(), "(") {
            return match find_str(rest.as_str(), ")") {
                Some(i) => {
                    let v = to_chars(rest.as_str());
                    proof {
                        reveal_strlit(")");
                    }
                    if i + 1 < v.len() && (v[i + 1] as u32) < 0x80 {
                        let t = without_first(rest.as_str(), i + 2);
                        with_name(SymbolKind::Method, t.as_str())
                    } else {
                        None
                    }
                },
                None => None,
            };
        }
        return with_name(SymbolKind::Function, rest.as_str());
    }
    let types = ["type "];
    assert(text::texts(types@) =~= seq!["type "@]);
    if let Some(rest) = strip_prefix_variants(line, &types) {
        return with_name(SymbolKind::Struct, rest.as_str());
    }
    None
}

/// The symbol that a line of C or C++ defines: a struct, or the last word
/// before the first parenthesis.
pub open spec fn c_symbol(line: Seq<char>) -> Option<(SymbolKind, Seq<char>)> {
    if let Some(rest) = behind_any(line, seq!["struct "@, "typedef struct "@]) {
        named(SymbolKind::Struct, rest)
    } else if text::begins(line, "//"@) || text::begins(line, " "@) {
        None
    } else {
        match text::find(line, "("@) {
            Some(i) => {
                let ws = pieces::words(text::trim(line.take(i)));
                if ws.len() > 0 && identifier(ws.last()) {
                    Some((SymbolKind::Function, ws.last()))
                } else {
                    None
                }
            },
            None => None,
        }
    }
}

/// The symbol that a line of C or C++ defines.
pub fn extract_c(line: &str) -> (r: Option<(SymbolKind, String)>)
    ensures
        found(r) == c_symbol(line@),
{
    let structs = ["struct ", "typedef struct "];
    assert(text::texts(structs@) =~= seq!["struct "@, "typedef struct "@]);
    if let Some(rest) = strip_prefix_variants(line, &structs) {
        return with_name(SymbolKind::Struct, rest.as_str());
    }
    if begins_with(line, "//") || begins_with(line, " ") {
        return None;
    }
    match find_str(line, "(") {
        Some(i) => {
            let before = cut(line, 0, i);
            assert(before@ =~= line@.take(i as int));
            let t = trimmed(before.as_str());
            let ws = words_of(t.as_str());
            assert(text::views(ws@).len() == ws@.len());
            if ws.len() == 0 {
                return None;
            }
            let n: usize = ws.len() - 1;
            assert(text::views(ws@)[n as int] == ws@[n as int]@);
            if is_ident(ws[n].as_str()) {
                Some((SymbolKind::Function, ws[n].clone()))
            } else {
                None
            }
        },
        None => None,
    }
}

/// The symbol that a line defines in the language of the extension.
pub open spec fn line_symbol(line: Seq<char>, ext: Seq<char>) -> Option<(SymbolKind, Seq<char>)> {
    if ext == "rs"@ {
        rust_symbol(line)
    } else if seq!["ts"@, "tsx"@, "js"@, "jsx"@].contains(ext) {
        ts_symbol(line)
    } else if ext == "py"@ {
        python_symbol(line)
    } else if ext == "go"@ {
        go_symbol(line)
    } else if seq!["c"@, "cpp"@, "h"@, "hpp"@].contains(ext) {
        c_symbol(line)
    } else {
        None
    }
}

fn symbol_of_line(line: &str, ext: &str) -> (r: Option<(SymbolKind, String)>)
    ensures
        found(r) == line_symbol(line@, ext@),
{
    let ts = ["ts", "tsx", "js", "jsx"];
    assert(text::texts(ts@) =~= seq!["ts"@, "tsx"@, "js"@, "jsx"@]);
    let cs = ["c", "cpp", "h", "hpp"];
    assert(text::texts(cs@) =~= seq!["c"@, "cpp"@, "h"@, "hpp"@]);
    if same(ext, "rs") {
        extract_rust(line)
    } else if one_of(ext, &ts) {
        extract_ts(line)
    } else if same(ext, "py") {
        extract_python(line)
    } else if same(ext, "go") {
        extract_go(line)
    } else if one_of(ext, &cs) {
        extract_c(line)
    } else {
        None
    }
}


// ── What a line of a given form defines ──────────────────────────────────────

/// An identifier as a line spells it: none of its characters is white space,
/// and its ASCII characters are letters, digits and `_`.
pub open spec fn spelled(s: Seq<char>) -> bool {
    &&& identifier(s)
    &&& forall|i: int|
        0 <= i < s.len() ==> !text::is_white(#[trigger] s[i]) && ((s[i] as u32) < 128
            ==> text::ascii_upper(s[i]) || text::ascii_lower(s[i]) || text::ascii_digit(s[i]) || s[i]
            == '_')
}

/// Whether a name ends where `tail` begins.
pub open spec fn set_off(tail: Seq<char>) -> bool {
    tail.len() == 0 || (!text::alphanumeric(tail[0]) && tail[0] != '_')
}

proof fn lead_white(s: Seq<char>, t: Seq<char>)
    requires
        t.len() > 0,
        !text::is_white(t[0]),
        forall|i: int| 0 <= i < s.len() ==> text::is_white(#[trigger] s[i]),
    ensures
        text::trim_start_set(s + t, CharSet::White) == t,
{
    let n = text::lead(s + t, CharSet::White, true);
    text::lead_bound(s + t, CharSet::White, true);
    if n < s.len() {
        assert((s + t)[n as int] == s[n as int]);
    } else if n > s.len() {
        assert((s + t)[s.len() as int] == t[0]);
    }
    assert((s + t).skip(s.len() as int) =~= t);
}

/// A name is read up to where it ends, and white space in front of it is
/// passed over.
pub proof fn name_is_read(space: Seq<char>, name: Seq<char>, tail: Seq<char>)
    requires
        forall|i: int| 0 <= i < space.len() ==> text::is_white(#[trigger] space[i]),
        spelled(name),
        set_off(tail),
    ensures
        leading_ident(space + name + tail) == Some(name),
{
    let s = name + tail;
    assert(space + name + tail =~= space + s);
    assert(s[0] == name[0]);
    lead_white(space, s);
    text::trail_bound(s, CharSet::White);
    let k = text::trail(s, CharSet::White);
    let n = name.len() as int;
    if s.len() - k < n {
        assert(text::in_set(CharSet::White, s[n - 1]));
        assert(s[n - 1] == name[n - 1]);
    }
    let t = s.take(s.len() - k);
    assert(text::trim(space + s) == t);
    text::lead_bound(t, CharSet::NotWord, false);
    let m = text::lead(t, CharSet::NotWord, false) as int;
    if m < n {
        assert(t[m] == name[m]);
    } else if m > n {
        assert(t[n] == tail[0]);
    }
    assert(t.take(n) =~= name);
}

/// What is read as a name is an identifier, stands in front, white space
/// aside, and ends where no character of a word follows.
pub proof fn read_name_stands_in_front(s: Seq<char>)
    ensures
        leading_ident(s) matches Some(n) ==> identifier(n) && text::begins(text::trim(s), n)
            && set_off(text::trim(s).skip(n.len() as int)),
{
    let t = text::trim(s);
    text::lead_bound(t, CharSet::NotWord, false);
    let m = text::lead(t, CharSet::NotWord, false) as int;
    assert(t.take(m) =~= t.subrange(0, m));
}

proof fn behind_it(p: Seq<char>, rest: Seq<char>)
    ensures
        text::behind(p + rest, p) == Some(rest),
{
    assert((p + rest).subrange(0, p.len() as int) =~= p);
    assert((p + rest).skip(p.len() as int) =~= rest);
}

proof fn not_behind(s: Seq<char>, p: Seq<char>, k: int)
    requires
        0 <= k < p.len(),
        s.len() <= k || s[k] != p[k],
    ensures
        text::behind(s, p) is None,
{
    if text::begins(s, p) {
        assert(s.subrange(0, p.len() as int)[k] == s[k]);
    }
}

/// The first prefix that `s` has is the one at `n`.
proof fn behind_one(s: Seq<char>, prefixes: Seq<Seq<char>>, n: int)
    requires
        0 <= n < prefixes.len(),
        forall|k: int| 0 <= k < n ==> text::behind(s, #[trigger] prefixes[k]) is None,
        text::behind(s, prefixes[n]) is Some,
    ensures
        behind_any(s, prefixes) == text::behind(s, prefixes[n]),
    decreases n,
{
    if n > 0 {
        assert forall|k: int| 0 <= k < n - 1 implies text::behind(
            s,
            #[trigger] prefixes.skip(1)[k],
        ) is None by {
            assert(prefixes.skip(1)[k] == prefixes[k + 1]);
        }
        assert(prefixes.skip(1)[n - 1] == prefixes[n]);
        assert(text::behind(s, prefixes[0]) is None);
        behind_one(s, prefixes.skip(1), n - 1);
    }
}

proof fn behind_none(s: Seq<char>, prefixes: Seq<Seq<char>>)
    requires
        forall|k: int| 0 <= k < prefixes.len() ==> text::behind(s, #[trigger] prefixes[k]) is None,
    ensures
        behind_any(s, prefixes) is None,
    decreases prefixes.len(),
{
    if prefixes.len() > 0 {
        assert forall|k: int| 0 <= k < prefixes.len() - 1 implies text::behind(
            s,
            #[trigger] prefixes.skip(1)[k],
        ) is None by {
            assert(prefixes.skip(1)[k] == prefixes[k + 1]);
        }
        behind_none(s, prefixes.skip(1));
    }
}

/// A text that begins with a character with which `p` does not begin does
/// not hold `p` there: it is held behind `a`, if anywhere.
proof fn held_behind(a: Seq<char>, b: Seq<char>, p: Seq<char>)
    requires
        p.len() > 0,
        forall|i: int| 0 <= i < a.len() ==> #[trigger] a[i] != p[0],
    ensures
        text::contains(a + b, p) == text::contains(b, p),
{
    let s = a + b;
    let n = a.len() as int;
    if text::contains(s, p) {
        let i = choose|i: int| text::occurs_at(s, p, i);
        assert(s.subrange(i, i + p.len())[0] == s[i]);
        if i < n {
            assert(s[i] == a[i]);
        }
        assert(b.subrange(i - n, i - n + p.len()) =~= s.subrange(i, i + p.len()));
        assert(text::occurs_at(b, p, i - n));
    }
    if text::contains(b, p) {
        let i = choose|i: int| text::occurs_at(b, p, i);
        assert(s.subrange(i + n, i + n + p.len()) =~= b.subrange(i, i + p.len()));
        assert(text::occurs_at(s, p, i + n));
    }
}

proof fn impl_line(r: Seq<char>)
    requires
        r.len() > 0,
        !text::is_white(r[0]),
        r[0] != '<',
    ensures
        rust_symbol("impl "@ + r) == impl_name(r),
{
    reveal_strlit("impl");
    reveal_strlit("impl ");
    reveal_strlit("<");
    let line = "impl "@ + r;
    reveal_strlit("pub async fn ");
    reveal_strlit("pub(crate) async fn ");
    reveal_strlit("async fn ");
    reveal_strlit("pub fn ");
    reveal_strlit("pub(crate) fn ");
    reveal_strlit("fn ");
    assert forall|k: int| 0 <= k < fn_prefixes().len() implies text::behind(
        line,
        #[trigger] fn_prefixes()[k],
    ) is None by {
        not_behind(line, fn_prefixes()[k], 0);
    }
    behind_none(line, fn_prefixes());
    reveal_strlit("pub struct ");
    reveal_strlit("pub(crate) struct ");
    reveal_strlit("struct ");
    let structs = seq!["pub struct "@, "pub(crate) struct "@, "struct "@];
    assert forall|k: int| 0 <= k < structs.len() implies text::behind(
        line,
        #[trigger] structs[k],
    ) is None by {
        not_behind(line, structs[k], 0);
    }
    behind_none(line, structs);
    reveal_strlit("pub enum ");
    reveal_strlit("pub(crate) enum ");
    reveal_strlit("enum ");
    let enums = seq!["pub enum "@, "pub(crate) enum "@, "enum "@];
    assert forall|k: int| 0 <= k < enums.len() implies text::behind(line, #[trigger] enums[k]) is None by {
        not_behind(line, enums[k], 0);
    }
    behind_none(line, enums);
    reveal_strlit("pub trait ");
    reveal_strlit("pub(crate) trait ");
    reveal_strlit("trait ");
    let traits = seq!["pub trait "@, "pub(crate) trait "@, "trait "@];
    assert forall|k: int| 0 <= k < traits.len() implies text::behind(
        line,
        #[trigger] traits[k],
    ) is None by {
        not_behind(line, traits[k], 0);
    }
    behind_none(line, traits);
    assert(line =~= "impl"@ + (seq![' '] + r));
    behind_it("impl"@, seq![' '] + r);
    lead_white(seq![' '], r);
    if text::begins(r, "<"@) {
        assert(r.subrange(0, 1)[0] == r[0]);
    }
}

/// The symbol of an `impl` is the type that it is for: the one behind ` for `
/// where a trait is named, and the first one where none is.
pub proof fn impl_names_its_type(tr: Seq<char>, ty: Seq<char>, tail: Seq<char>)
    requires
        spelled(tr),
        spelled(ty),
        set_off(tail),
        !text::contains(tail, " for "@),
    ensures
        rust_symbol("impl "@ + tr + " for "@ + ty + tail) == Some((SymbolKind::Impl, ty)),
        rust_symbol("impl "@ + ty + tail) == Some((SymbolKind::Impl, ty)),
{
    reveal_strlit(" for ");
    let f = " for "@;
    let none = Seq::<char>::empty();
    let rest = ty + tail;
    assert(none + ty + tail =~= rest);
    name_is_read(none, ty, tail);
    assert(rest[0] == ty[0]);
    held_behind(ty, tail, f);
    assert("impl "@ + ty + tail =~= "impl "@ + rest);
    impl_line(rest);

    let r = tr + f + rest;
    assert(r[0] == tr[0]);
    assert("impl "@ + tr + f + ty + tail =~= "impl "@ + r);
    impl_line(r);
    let n = tr.len() as int;
    assert(!tr.contains(' ')) by {
        if tr.contains(' ') {
            let i = tr.index_of(' ');
            assert(text::is_white(tr[i]));
        }
    }
    text::found_behind(tr, f, rest);
    text::find_is_first(rest, f);
    assert(pieces::split_text(rest, f) =~= seq![rest]);
    assert(pieces::split_text(r, f) =~= seq![r.take(n)] + seq![rest]);
    assert(pieces::split_text(r, f)[1] == rest);
}

/// Two texts that differ at some place that both have.
pub open spec fn apart(p: Seq<char>, q: Seq<char>) -> bool {
    exists|j: int| 0 <= j < p.len() && j < q.len() && #[trigger] p[j] != #[trigger] q[j]
}

proof fn past_word(p: Seq<char>, rest: Seq<char>, q: Seq<char>)
    requires
        apart(p, q),
    ensures
        text::behind(p + rest, q) is None,
{
    let j = choose|j: int| 0 <= j < p.len() && j < q.len() && #[trigger] p[j] != #[trigger] q[j];
    not_behind(p + rest, q, j);
}

proof fn past(p: Seq<char>, rest: Seq<char>, list: Seq<Seq<char>>)
    requires
        forall|k: int| 0 <= k < list.len() ==> apart(p, #[trigger] list[k]),
    ensures
        behind_any(p + rest, list) is None,
{
    assert forall|k: int| 0 <= k < list.len() implies text::behind(
        p + rest,
        #[trigger] list[k],
    ) is None by {
        past_word(p, rest, list[k]);
    }
    behind_none(p + rest, list);
}

proof fn reached(p: Seq<char>, rest: Seq<char>, list: Seq<Seq<char>>, n: int)
    requires
        0 <= n < list.len(),
        list[n] == p,
        forall|k: int| 0 <= k < n ==> apart(p, #[trigger] list[k]),
    ensures
        behind_any(p + rest, list) == Some(rest),
{
    assert forall|k: int| 0 <= k < n implies text::behind(p + rest, #[trigger] list[k]) is None by {
        past_word(p, rest, list[k]);
    }
    behind_it(p, rest);
    behind_one(p + rest, list, n);
}

proof fn rust_functions(name: Seq<char>, tail: Seq<char>)
    requires
        spelled(name),
        set_off(tail),
    ensures
        rust_symbol("pub async fn "@ + name + tail) == Some((SymbolKind::Function, name)),
        rust_symbol("pub(crate) async fn "@ + name + tail) == Some((SymbolKind::Function, name)),
        rust_symbol("async fn "@ + name + tail) == Some((SymbolKind::Function, name)),
        rust_symbol("pub fn "@ + name + tail) == Some((SymbolKind::Function, name)),
        rust_symbol("pub(crate) fn "@ + name + tail) == Some((SymbolKind::Function, name)),
        rust_symbol("fn "@ + name + tail) == Some((SymbolKind::Function, name)),
{
    reveal_strlit("pub async fn ");
    reveal_strlit("pub(crate) async fn ");
    reveal_strlit("async fn ");
    reveal_strlit("pub fn ");
    reveal_strlit("pub(crate) fn ");
    reveal_strlit("fn ");
    let rest = name + tail;
    assert(Seq::<char>::empty() + name + tail =~= rest);
    name_is_read(Seq::empty(), name, tail);
    assert("pub async fn "@ + name + tail =~= "pub async fn "@ + rest);
    reached("pub async fn "@, rest, fn_prefixes(), 0);
    assert("pub(crate) async fn "@ + name + tail =~= "pub(crate) async fn "@ + rest);
    assert("pub(crate) async fn "@[3] != "pub async fn "@[3]);
    reached("pub(crate) async fn "@, rest, fn_prefixes(), 1);
    assert("async fn "@ + name + tail =~= "async fn "@ + rest);
    assert("async fn "@[0] != "pub async fn "@[0]);
    assert("async fn "@[0] != "pub(crate) async fn "@[0]);
    reached("async fn "@, rest, fn_prefixes(), 2);
    assert("pub fn "@ + name + tail =~= "pub fn "@ + rest);
    assert("pub fn "@[4] != "pub async fn "@[4]);
    assert("pub fn "@[3] != "pub(crate) async fn "@[3]);
    assert("pub fn "@[0] != "async fn "@[0]);
    reached("pub fn "@, rest, fn_prefixes(), 3);
    assert("pub(crate) fn "@ + name + tail =~= "pub(crate) fn "@ + rest);
    assert("pub(crate) fn "@[3] != "pub async fn "@[3]);
    assert("pub(crate) fn "@[11] != "pub(crate) async fn "@[11]);
    assert("pub(crate) fn "@[0] != "async fn "@[0]);
    assert("pub(crate) fn "@[3] != "pub fn "@[3]);
    reached("pub(crate) fn "@, rest, fn_prefixes(), 4);
    assert("fn "@ + name + tail =~= "fn "@ + rest);
    assert("fn "@[0] != "pub async fn "@[0]);
    assert("fn "@[0] != "pub(crate) async fn "@[0]);
    assert("fn "@[0] != "async fn "@[0]);
    assert("fn "@[0] != "pub fn "@[0]);
    assert("fn "@[0] != "pub(crate) fn "@[0]);
    reached("fn "@, rest, fn_prefixes(), 5);
}

proof fn rust_structs(name: Seq<char>, tail: Seq<char>)
    requires
        spelled(name),
        set_off(tail),
    ensures
        rust_symbol("pub struct "@ + name + tail) == Some((SymbolKind::Struct, name)),
        rust_symbol("pub(crate) struct "@ + name + tail) == Some((SymbolKind::Struct, name)),
        rust_symbol("struct "@ + name + tail) == Some((SymbolKind::Struct, name)),
{
    reveal_strlit("pub async fn ");
    reveal_strlit("pub(crate) async fn ");
    reveal_strlit("async fn ");
    reveal_strlit("pub fn ");
    reveal_strlit("pub(crate) fn ");
    reveal_strlit("fn ");
    reveal_strlit("pub struct ");
    reveal_strlit("pub(crate) struct ");
    reveal_strlit("struct ");
    let rest = name + tail;
    assert(Seq::<char>::empty() + name + tail =~= rest);
    name_is_read(Seq::empty(), name, tail);
    assert("pub struct "@ + name + tail =~= "pub struct "@ + rest);
    assert("pub struct "@[4] != "pub async fn "@[4]);
    assert("pub struct "@[3] != "pub(crate) async fn "@[3]);
    assert("pub struct "@[0] != "async fn "@[0]);
    assert("pub struct "@[4] != "pub fn "@[4]);
    assert("pub struct "@[3] != "pub(crate) fn "@[3]);
    assert("pub struct "@[0] != "fn "@[0]);
    past("pub struct "@, rest, fn_prefixes());
    reached("pub struct "@, rest, seq!["pub struct "@, "pub(crate) struct "@, "struct "@], 0);
    assert("pub(crate) struct "@ + name + tail =~= "pub(crate) struct "@ + rest);
    assert("pub(crate) struct "@[3] != "pub async fn "@[3]);
    assert("pub(crate) struct "@[11] != "pub(crate) async fn "@[11]);
    assert("pub(crate) struct "@[0] != "async fn "@[0]);
    assert("pub(crate) struct "@[3] != "pub fn "@[3]);
    assert("pub(crate) struct "@[11] != "pub(crate) fn "@[11]);
    assert("pub(crate) struct "@[0] != "fn "@[0]);
    assert("pub(crate) struct "@[3] != "pub struct "@[3]);
    past("pub(crate) struct "@, rest, fn_prefixes());
    reached("pub(crate) struct "@, rest, seq!["pub struct "@, "pub(crate) struct "@, "struct "@], 1);
    assert("struct "@ + name + tail =~= "struct "@ + rest);
    assert("struct "@[0] != "pub async fn "@[0]);
    assert("struct "@[0] != "pub(crate) async fn "@[0]);
    assert("struct "@[0] != "async fn "@[0]);
    assert("struct "@[0] != "pub fn "@[0]);
    assert("struct "@[0] != "pub(crate) fn "@[0]);
    assert("struct "@[0] != "fn "@[0]);
    assert("struct "@[0] != "pub struct "@[0]);
    assert("struct "@[0] != "pub(crate) struct "@[0]);
    past("struct "@, rest, fn_prefixes());
    reached("struct "@, rest, seq!["pub struct "@, "pub(crate) struct "@, "struct "@], 2);
}

proof fn rust_enums(name: Seq<char>, tail: Seq<char>)
    requires
        spelled(name),
        set_off(tail),
    ensures
        rust_symbol("pub enum "@ + name + tail) == Some((SymbolKind::Enum, name)),
        rust_symbol("pub(crate) enum "@ + name + tail) == Some((SymbolKind::Enum, name)),
        rust_symbol("enum "@ + name + tail) == Some((SymbolKind::Enum, name)),
{
    reveal_strlit("pub async fn ");
    reveal_strlit("pub(crate) async fn ");
    reveal_strlit("async fn ");
    reveal_strlit("pub fn ");
    reveal_strlit("pub(crate) fn ");
    reveal_strlit("fn ");
    reveal_strlit("pub struct ");
    reveal_strlit("pub(crate) struct ");
    reveal_strlit("struct ");
    reveal_strlit("pub enum ");
    reveal_strlit("pub(crate) enum ");
    reveal_strlit("enum ");
    let rest = name + tail;
    assert(Seq::<char>::empty() + name + tail =~= rest);
    name_is_read(Seq::empty(), name, tail);
    assert("pub enum "@ + name + tail =~= "pub enum "@ + rest);
    assert("pub enum "@[4] != "pub async fn "@[4]);
    assert("pub enum "@[3] != "pub(crate) async fn "@[3]);
    assert("pub enum "@[0] != "async fn "@[0]);
    assert("pub enum "@[4] != "pub fn "@[4]);
    assert("pub enum "@[3] != "pub(crate) fn "@[3]);
    assert("pub enum "@[0] != "fn "@[0]);
    assert("pub enum "@[4] != "pub struct "@[4]);
    assert("pub enum "@[3] != "pub(crate) struct "@[3]);
    assert("pub enum "@[0] != "struct "@[0]);
    past("pub enum "@, rest, fn_prefixes());
    past("pub enum "@, rest, seq!["pub struct "@, "pub(crate) struct "@, "struct "@]);
    reached("pub enum "@, rest, seq!["pub enum "@, "pub(crate) enum "@, "enum "@], 0);
    assert("pub(crate) enum "@ + name + tail =~= "pub(crate) enum "@ + rest);
    assert("pub(crate) enum "@[3] != "pub async fn "@[3]);
    assert("pub(crate) enum "@[11] != "pub(crate) async fn "@[11]);
    assert("pub(crate) enum "@[0] != "async fn "@[0]);
    assert("pub(crate) enum "@[3] != "pub fn "@[3]);
    assert("pub(crate) enum "@[11] != "pub(crate) fn "@[11]);
    assert("pub(crate) enum "@[0] != "fn "@[0]);
    assert("pub(crate) enum "@[3] != "pub struct "@[3]);
    assert("pub(crate) enum "@[11] != "pub(crate) struct "@[11]);
    assert("pub(crate) enum "@[0] != "struct "@[0]);
    assert("pub(crate) enum "@[3] != "pub enum "@[3]);
    past("pub(crate) enum "@, rest, fn_prefixes());
    past("pub(crate) enum "@, rest, seq!["pub struct "@, "pub(crate) struct "@, "struct "@]);
    reached("pub(crate) enum "@, rest, seq!["pub enum "@, "pub(crate) enum "@, "enum "@], 1);
    assert("enum "@ + name + tail =~= "enum "@ + rest);
    assert("enum "@[0] != "pub async fn "@[0]);
    assert("enum "@[0] != "pub(crate) async fn "@[0]);
    assert("enum "@[0] != "async fn "@[0]);
    assert("enum "@[0] != "pub fn "@[0]);
    assert("enum "@[0] != "pub(crate) fn "@[0]);
    assert("enum "@[0] != "fn "@[0]);
    assert("enum "@[0] != "pub struct "@[0]);
    assert("enum "@[0] != "pub(crate) struct "@[0]);
    assert("enum "@[0] != "struct "@[0]);
    assert("enum "@[0] != "pub enum "@[0]);
    assert("enum "@[0] != "pub(crate) enum "@[0]);
    past("enum "@, rest, fn_prefixes());
    past("enum "@, rest, seq!["pub struct "@, "pub(crate) struct "@, "struct "@]);
    reached("enum "@, rest, seq!["pub enum "@, "pub(crate) enum "@, "enum "@], 2);
}

proof fn rust_traits(name: Seq<char>, tail: Seq<char>)
    requires
        spelled(name),
        set_off(tail),
    ensures
        rust_symbol("pub trait "@ + name + tail) == Some((SymbolKind::Trait, name)),
        rust_symbol("pub(crate) trait "@ + name + tail) == Some((SymbolKind::Trait, name)),
        rust_symbol("trait "@ + name + tail) == Some((SymbolKind::Trait, name)),
{
    reveal_strlit("pub async fn ");
    reveal_strlit("pub(crate) async fn ");
    reveal_strlit("async fn ");
    reveal_strlit("pub fn ");
    reveal_strlit("pub(crate) fn ");
    reveal_strlit("fn ");
    reveal_strlit("pub struct ");
    reveal_strlit("pub(crate) struct ");
    reveal_strlit("struct ");
    reveal_strlit("pub enum ");
    reveal_strlit("pub(crate) enum ");
    reveal_strlit("enum ");
    reveal_strlit("pub trait ");
    reveal_strlit("pub(crate) trait ");
    reveal_strlit("trait ");
    let rest = name + tail;
    assert(Seq::<char>::empty() + name + tail =~= rest);
    name_is_read(Seq::empty(), name, tail);
    assert("pub trait "@ + name + tail =~= "pub trait "@ + rest);
    assert("pub trait "@[4] != "pub async fn "@[4]);
    assert("pub trait "@[3] != "pub(crate) async fn "@[3]);
    assert("pub trait "@[0] != "async fn "@[0]);
    assert("pub trait "@[4] != "pub fn "@[4]);
    assert("pub trait "@[3] != "pub(crate) fn "@[3]);
    assert("pub trait "@[0] != "fn "@[0]);
    assert("pub trait "@[4] != "pub struct "@[4]);
    assert("pub trait "@[3] != "pub(crate) struct "@[3]);
    assert("pub trait "@[0] != "struct "@[0]);
    assert("pub trait "@[4] != "pub enum "@[4]);
    assert("pub trait "@[3] != "pub(crate) enum "@[3]);
    assert("pub trait "@[0] != "enum "@[0]);
    past("pub trait "@, rest, fn_prefixes());
    past("pub trait "@, rest, seq!["pub struct "@, "pub(crate) struct "@, "struct "@]);
    past("pub trait "@, rest, seq!["pub enum "@, "pub(crate) enum "@, "enum "@]);
    reached("pub trait "@, rest, seq!["pub trait "@, "pub(crate) trait "@, "trait "@], 0);
    assert("pub(crate) trait "@ + name + tail =~= "pub(crate) trait "@ + rest);
    assert("pub(crate) trait "@[3] != "pub async fn "@[3]);
    assert("pub(crate) trait "@[11] != "pub(crate) async fn "@[11]);
    assert("pub(crate) trait "@[0] != "async fn "@[0]);
    assert("pub(crate) trait "@[3] != "pub fn "@[3]);
    assert("pub(crate) trait "@[11] != "pub(crate) fn "@[11]);
    assert("pub(crate) trait "@[0] != "fn "@[0]);
    assert("pub(crate) trait "@[3] != "pub struct "@[3]);
    assert("pub(crate) trait "@[11] != "pub(crate) struct "@[11]);
    assert("pub(crate) trait "@[0] != "struct "@[0]);
    assert("pub(crate) trait "@[3] != "pub enum "@[3]);
    assert("pub(crate) trait "@[11] != "pub(crate) enum "@[11]);
    assert("pub(crate) trait "@[0] != "enum "@[0]);
    assert("pub(crate) trait "@[3] != "pub trait "@[3]);
    past("pub(crate) trait "@, rest, fn_prefixes());
    past("pub(crate) trait "@, rest, seq!["pub struct "@, "pub(crate) struct "@, "struct "@]);
    past("pub(crate) trait "@, rest, seq!["pub enum "@, "pub(crate) enum "@, "enum "@]);
    reached("pub(crate) trait "@, rest, seq!["pub trait "@, "pub(crate) trait "@, "trait "@], 1);
    assert("trait "@ + name + tail =~= "trait "@ + rest);
    assert("trait "@[0] != "pub async fn "@[0]);
    assert("trait "@[0] != "pub(crate) async fn "@[0]);
    assert("trait "@[0] != "async fn "@[0]);
    assert("trait "@[0] != "pub fn "@[0]);
    assert("trait "@[0] != "pub(crate) fn "@[0]);
    assert("trait "@[0] != "fn "@[0]);
    assert("trait "@[0] != "pub struct "@[0]);
    assert("trait "@[0] != "pub(crate) struct "@[0]);
    assert("trait "@[0] != "struct "@[0]);
    assert("trait "@[0] != "pub enum "@[0]);
    assert("trait "@[0] != "pub(crate) enum "@[0]);
    assert("trait "@[0] != "enum "@[0]);
    assert("trait "@[0] != "pub trait "@[0]);
    assert("trait "@[0] != "pub(crate) trait "@[0]);
    past("trait "@, rest, fn_prefixes());
    past("trait "@, rest, seq!["pub struct "@, "pub(crate) struct "@, "struct "@]);
    past("trait "@, rest, seq!["pub enum "@, "pub(crate) enum "@, "enum "@]);
    reached("trait "@, rest, seq!["pub trait "@, "pub(crate) trait "@, "trait "@], 2);
}

proof fn rust_constants(name: Seq<char>, tail: Seq<char>)
    requires
        spelled(name),
        set_off(tail),
    ensures
        rust_symbol("pub const "@ + name + tail) == Some((SymbolKind::Constant, name)),
        rust_symbol("const "@ + name + tail) == Some((SymbolKind::Constant, name)),
{
    reveal_strlit("pub async fn ");
    reveal_strlit("pub(crate) async fn ");
    reveal_strlit("async fn ");
    reveal_strlit("pub fn ");
    reveal_strlit("pub(crate) fn ");
    reveal_strlit("fn ");
    reveal_strlit("pub struct ");
    reveal_strlit("pub(crate) struct ");
    reveal_strlit("struct ");
    reveal_strlit("pub enum ");
    reveal_strlit("pub(crate) enum ");
    reveal_strlit("enum ");
    reveal_strlit("pub trait ");
    reveal_strlit("pub(crate) trait ");
    reveal_strlit("trait ");
    reveal_strlit("impl");
    reveal_strlit("pub const ");
    reveal_strlit("const ");
    let rest = name + tail;
    assert(Seq::<char>::empty() + name + tail =~= rest);
    name_is_read(Seq::empty(), name, tail);
    assert("pub const "@ + name + tail =~= "pub const "@ + rest);
    assert("pub const "@[4] != "pub async fn "@[4]);
    assert("pub const "@[3] != "pub(crate) async fn "@[3]);
    assert("pub const "@[0] != "async fn "@[0]);
    assert("pub const "@[4] != "pub fn "@[4]);
    assert("pub const "@[3] != "pub(crate) fn "@[3]);
    assert("pub const "@[0] != "fn "@[0]);
    assert("pub const "@[4] != "pub struct "@[4]);
    assert("pub const "@[3] != "pub(crate) struct "@[3]);
    assert("pub const "@[0] != "struct "@[0]);
    assert("pub const "@[4] != "pub enum "@[4]);
    assert("pub const "@[3] != "pub(crate) enum "@[3]);
    assert("pub const "@[0] != "enum "@[0]);
    assert("pub const "@[4] != "pub trait "@[4]);
    assert("pub const "@[3] != "pub(crate) trait "@[3]);
    assert("pub const "@[0] != "trait "@[0]);
    assert("pub const "@[0] != "impl"@[0]);
    past("pub const "@, rest, fn_prefixes());
    past("pub const "@, rest, seq!["pub struct "@, "pub(crate) struct "@, "struct "@]);
    past("pub const "@, rest, seq!["pub enum "@, "pub(crate) enum "@, "enum "@]);
    past("pub const "@, rest, seq!["pub trait "@, "pub(crate) trait "@, "trait "@]);
    past_word("pub const "@, rest, "impl"@);
    reached("pub const "@, rest, seq!["pub const "@, "const "@], 0);
    assert("const "@ + name + tail =~= "const "@ + rest);
    assert("const "@[0] != "pub async fn "@[0]);
    assert("const "@[0] != "pub(crate) async fn "@[0]);
    assert("const "@[0] != "async fn "@[0]);
    assert("const "@[0] != "pub fn "@[0]);
    assert("const "@[0] != "pub(crate) fn "@[0]);
    assert("const "@[0] != "fn "@[0]);
    assert("const "@[0] != "pub struct "@[0]);
    assert("const "@[0] != "pub(crate) struct "@[0]);
    assert("const "@[0] != "struct "@[0]);
    assert("const "@[0] != "pub enum "@[0]);
    assert("const "@[0] != "pub(crate) enum "@[0]);
    assert("const "@[0] != "enum "@[0]);
    assert("const "@[0] != "pub trait "@[0]);
    assert("const "@[0] != "pub(crate) trait "@[0]);
    assert("const "@[0] != "trait "@[0]);
    assert("const "@[0] != "impl"@[0]);
    assert("const "@[0] != "pub const "@[0]);
    past("const "@, rest, fn_prefixes());
    past("const "@, rest, seq!["pub struct "@, "pub(crate) struct "@, "struct "@]);
    past("const "@, rest, seq!["pub enum "@, "pub(crate) enum "@, "enum "@]);
    past("const "@, rest, seq!["pub trait "@, "pub(crate) trait "@, "trait "@]);
    past_word("const "@, rest, "impl"@);
    reached("const "@, rest, seq!["pub const "@, "const "@], 1);
}

/// A line of Rust that begins with the words of a definition defines the
/// name behind them, as what the words say.
pub proof fn rust_lines_define(name: Seq<char>, tail: Seq<char>)
    requires
        spelled(name),
        set_off(tail),
    ensures
        rust_symbol("pub async fn "@ + name + tail) == Some((SymbolKind::Function, name)),
        rust_symbol("pub(crate) async fn "@ + name + tail) == Some((SymbolKind::Function, name)),
        rust_symbol("async fn "@ + name + tail) == Some((SymbolKind::Function, name)),
        rust_symbol("pub fn "@ + name + tail) == Some((SymbolKind::Function, name)),
        rust_symbol("pub(crate) fn "@ + name + tail) == Some((SymbolKind::Function, name)),
        rust_symbol("fn "@ + name + tail) == Some((SymbolKind::Function, name)),
        rust_symbol("pub struct "@ + name + tail) == Some((SymbolKind::Struct, name)),
        rust_symbol("pub(crate) struct "@ + name + tail) == Some((SymbolKind::Struct, name)),
        rust_symbol("struct "@ + name + tail) == Some((SymbolKind::Struct, name)),
        rust_symbol("pub enum "@ + name + tail) == Some((SymbolKind::Enum, name)),
        rust_symbol("pub(crate) enum "@ + name + tail) == Some((SymbolKind::Enum, name)),
        rust_symbol("enum "@ + name + tail) == Some((SymbolKind::Enum, name)),
        rust_symbol("pub trait "@ + name + tail) == Some((SymbolKind::Trait, name)),
        rust_symbol("pub(crate) trait "@ + name + tail) == Some((SymbolKind::Trait, name)),
        rust_symbol("trait "@ + name + tail) == Some((SymbolKind::Trait, name)),
        rust_symbol("pub const "@ + name + tail) == Some((SymbolKind::Constant, name)),
        rust_symbol("const "@ + name + tail) == Some((SymbolKind::Constant, name)),
{
    rust_functions(name, tail);
    rust_structs(name, tail);
    rust_enums(name, tail);
    rust_traits(name, tail);
    rust_constants(name, tail);
}

proof fn python_functions(name: Seq<char>, tail: Seq<char>)
    requires
        spelled(name),
        set_off(tail),
    ensures
        python_symbol("async def "@ + name + tail) == Some((SymbolKind::Function, name)),
        python_symbol("def "@ + name + tail) == Some((SymbolKind::Function, name)),
{
    reveal_strlit("async def ");
    reveal_strlit("def ");
    let rest = name + tail;
    assert(Seq::<char>::empty() + name + tail =~= rest);
    name_is_read(Seq::empty(), name, tail);
    assert("async def "@ + name + tail =~= "async def "@ + rest);
    reached("async def "@, rest, seq!["async def "@, "def "@], 0);
    assert("def "@ + name + tail =~= "def "@ + rest);
    assert("def "@[0] != "async def "@[0]);
    reached("def "@, rest, seq!["async def "@, "def "@], 1);
}

proof fn python_classes(name: Seq<char>, tail: Seq<char>)
    requires
        spelled(name),
        set_off(tail),
    ensures
        python_symbol("class "@ + name + tail) == Some((SymbolKind::Class, name)),
{
    reveal_strlit("async def ");
    reveal_strlit("def ");
    reveal_strlit("class ");
    let rest = name + tail;
    assert(Seq::<char>::empty() + name + tail =~= rest);
    name_is_read(Seq::empty(), name, tail);
    assert("class "@ + name + tail =~= "class "@ + rest);
    assert("class "@[0] != "async def "@[0]);
    assert("class "@[0] != "def "@[0]);
    past("class "@, rest, seq!["async def "@, "def "@]);
    behind_it("class "@, rest);
}

/// A line of Python that begins with the words of a definition defines the
/// name behind them.
pub proof fn python_lines_define(name: Seq<char>, tail: Seq<char>)
    requires
        spelled(name),
        set_off(tail),
    ensures
        python_symbol("async def "@ + name + tail) == Some((SymbolKind::Function, name)),
        python_symbol("def "@ + name + tail) == Some((SymbolKind::Function, name)),
        python_symbol("class "@ + name + tail) == Some((SymbolKind::Class, name)),
{
    python_functions(name, tail);
    python_classes(name, tail);
}

proof fn script_functions(name: Seq<char>, tail: Seq<char>)
    requires
        spelled(name),
        set_off(tail),
    ensures
        ts_symbol("export async function "@ + name + tail) == Some((SymbolKind::Function, name)),
        ts_symbol("export function "@ + name + tail) == Some((SymbolKind::Function, name)),
        ts_symbol("async function "@ + name + tail) == Some((SymbolKind::Function, name)),
        ts_symbol("function "@ + name + tail) == Some((SymbolKind::Function, name)),
{
    reveal_strlit("export async function ");
    reveal_strlit("export function ");
    reveal_strlit("async function ");
    reveal_strlit("function ");
    let rest = name + tail;
    assert(Seq::<char>::empty() + name + tail =~= rest);
    name_is_read(Seq::empty(), name, tail);
    assert("export async function "@ + name + tail =~= "export async function "@ + rest);
    reached("export async function "@, rest, seq!["export async function "@, "export function "@, "async function "@, "function "@], 0);
    assert("export function "@ + name + tail =~= "export function "@ + rest);
    assert("export function "@[7] != "export async function "@[7]);
    reached("export function "@, rest, seq!["export async function "@, "export function "@, "async function "@, "function "@], 1);
    assert("async function "@ + name + tail =~= "async function "@ + rest);
    assert("async function "@[0] != "export async function "@[0]);
    assert("async function "@[0] != "export function "@[0]);
    reached("async function "@, rest, seq!["export async function "@, "export function "@, "async function "@, "function "@], 2);
    assert("function "@ + name + tail =~= "function "@ + rest);
    assert("function "@[0] != "export async function "@[0]);
    assert("function "@[0] != "export function "@[0]);
    assert("function "@[0] != "async function "@[0]);
    reached("function "@, rest, seq!["export async function "@, "export function "@, "async function "@, "function "@], 3);
}

proof fn script_default(name: Seq<char>, tail: Seq<char>)
    requires
        spelled(name),
        set_off(tail),
    ensures
        ts_symbol("export default function "@ + name + tail) == Some((SymbolKind::Function, name)),
{
    reveal_strlit("export async function ");
    reveal_strlit("export function ");
    reveal_strlit("async function ");
    reveal_strlit("function ");
    reveal_strlit("export default function ");
    let rest = name + tail;
    assert(Seq::<char>::empty() + name + tail =~= rest);
    name_is_read(Seq::empty(), name, tail);
    assert("export default function "@ + name + tail =~= "export default function "@ + rest);
    assert("export default function "@[7] != "export async function "@[7]);
    assert("export default function "@[7] != "export function "@[7]);
    assert("export default function "@[0] != "async function "@[0]);
    assert("export default function "@[0] != "function "@[0]);
    past("export default function "@, rest, seq!["export async function "@, "export function "@, "async function "@, "function "@]);
    behind_it("export default function "@, rest);
}

proof fn script_classes(name: Seq<char>, tail: Seq<char>)
    requires
        spelled(name),
        set_off(tail),
    ensures
        ts_symbol("export class "@ + name + tail) == Some((SymbolKind::Class, name)),
        ts_symbol("export abstract class "@ + name + tail) == Some((SymbolKind::Class, name)),
        ts_symbol("class "@ + name + tail) == Some((SymbolKind::Class, name)),
{
    reveal_strlit("export async function ");
    reveal_strlit("export function ");
    reveal_strlit("async function ");
    reveal_strlit("function ");
    reveal_strlit("export default function ");
    reveal_strlit("export class ");
    reveal_strlit("export abstract class ");
    reveal_strlit("class ");
    let rest = name + tail;
    assert(Seq::<char>::empty() + name + tail =~= rest);
    name_is_read(Seq::empty(), name, tail);
    assert("export class "@ + name + tail =~= "export class "@ + rest);
    assert("export class "@[7] != "export async function "@[7]);
    assert("export class "@[7] != "export function "@[7]);
    assert("export class "@[0] != "async function "@[0]);
    assert("export class "@[0] != "function "@[0]);
    assert("export class "@[7] != "export default function "@[7]);
    past("export class "@, rest, seq!["export async function "@, "export function "@, "async function "@, "function "@]);
    past_word("export class "@, rest, "export default function "@);
    reached("export class "@, rest, seq!["export class "@, "export abstract class "@, "class "@], 0);
    assert("export abstract class "@ + name + tail =~= "export abstract class "@ + rest);
    assert("export abstract class "@[8] != "export async function "@[8]);
    assert("export abstract class "@[7] != "export function "@[7]);
    assert("export abstract class "@[0] != "async function "@[0]);
    assert("export abstract class "@[0] != "function "@[0]);
    assert("export abstract class "@[7] != "export default function "@[7]);
    assert("export abstract class "@[7] != "export class "@[7]);
    past("export abstract class "@, rest, seq!["export async function "@, "export function "@, "async function "@, "function "@]);
    past_word("export abstract class "@, rest, "export default function "@);
    reached("export abstract class "@, rest, seq!["export class "@, "export abstract class "@, "class "@], 1);
    assert("class "@ + name + tail =~= "class "@ + rest);
    assert("class "@[0] != "export async function "@[0]);
    assert("class "@[0] != "export function "@[0]);
    assert("class "@[0] != "async function "@[0]);
    assert("class "@[0] != "function "@[0]);
    assert("class "@[0] != "export default function "@[0]);
    assert("class "@[0] != "export class "@[0]);
    assert("class "@[0] != "export abstract class "@[0]);
    past("class "@, rest, seq!["export async function "@, "export function "@, "async function "@, "function "@]);
    past_word("class "@, rest, "export default function "@);
    reached("class "@, rest, seq!["export class "@, "export abstract class "@, "class "@], 2);
}

proof fn script_structs(name: Seq<char>, tail: Seq<char>)
    requires
        spelled(name),
        set_off(tail),
    ensures
        ts_symbol("export interface "@ + name + tail) == Some((SymbolKind::Struct, name)),
        ts_symbol("interface "@ + name + tail) == Some((SymbolKind::Struct, name)),
{
    reveal_strlit("export async function ");
    reveal_strlit("export function ");
    reveal_strlit("async function ");
    reveal_strlit("function ");
    reveal_strlit("export default function ");
    reveal_strlit("export class ");
    reveal_strlit("export abstract class ");
    reveal_strlit("class ");
    reveal_strlit("export interface ");
    reveal_strlit("interface ");
    let rest = name + tail;
    assert(Seq::<char>::empty() + name + tail =~= rest);
    name_is_read(Seq::empty(), name, tail);
    assert("export interface "@ + name + tail =~= "export interface "@ + rest);
    assert("export interface "@[7] != "export async function "@[7]);
    assert("export interface "@[7] != "export function "@[7]);
    assert("export interface "@[0] != "async function "@[0]);
    assert("export interface "@[0] != "function "@[0]);
    assert("export interface "@[7] != "export default function "@[7]);
    assert("export interface "@[7] != "export class "@[7]);
    assert("export interface "@[7] != "export abstract class "@[7]);
    assert("export interface "@[0] != "class "@[0]);
    past("export interface "@, rest, seq!["export async function "@, "export function "@, "async function "@, "function "@]);
    past_word("export interface "@, rest, "export default function "@);
    past("export interface "@, rest, seq!["export class "@, "export abstract class "@, "class "@]);
    reached("export interface "@, rest, seq!["export interface "@, "interface "@], 0);
    assert("interface "@ + name + tail =~= "interface "@ + rest);
    assert("interface "@[0] != "export async function "@[0]);
    assert("interface "@[0] != "export function "@[0]);
    assert("interface "@[0] != "async function "@[0]);
    assert("interface "@[0] != "function "@[0]);
    assert("interface "@[0] != "export default function "@[0]);
    assert("interface "@[0] != "export class "@[0]);
    assert("interface "@[0] != "export abstract class "@[0]);
    assert("interface "@[0] != "class "@[0]);
    assert("interface "@[0] != "export interface "@[0]);
    past("interface "@, rest, seq!["export async function "@, "export function "@, "async function "@, "function "@]);
    past_word("interface "@, rest, "export default function "@);
    past("interface "@, rest, seq!["export class "@, "export abstract class "@, "class "@]);
    reached("interface "@, rest, seq!["export interface "@, "interface "@], 1);
}

proof fn script_types(name: Seq<char>, tail: Seq<char>)
    requires
        spelled(name),
        set_off(tail),
    ensures
        ts_symbol("export type "@ + name + tail) == Some((SymbolKind::Other, name)),
{
    reveal_strlit("export async function ");
    reveal_strlit("export function ");
    reveal_strlit("async function ");
    reveal_strlit("function ");
    reveal_strlit("export default function ");
    reveal_strlit("export class ");
    reveal_strlit("export abstract class ");
    reveal_strlit("class ");
    reveal_strlit("export interface ");
    reveal_strlit("interface ");
    reveal_strlit("export type ");
    let rest = name + tail;
    assert(Seq::<char>::empty() + name + tail =~= rest);
    name_is_read(Seq::empty(), name, tail);
    assert("export type "@ + name + tail =~= "export type "@ + rest);
    assert("export type "@[7] != "export async function "@[7]);
    assert("export type "@[7] != "export function "@[7]);
    assert("export type "@[0] != "async function "@[0]);
    assert("export type "@[0] != "function "@[0]);
    assert("export type "@[7] != "export default function "@[7]);
    assert("export type "@[7] != "export class "@[7]);
    assert("export type "@[7] != "export abstract class "@[7]);
    assert("export type "@[0] != "class "@[0]);
    assert("export type "@[7] != "export interface "@[7]);
    assert("export type "@[0] != "interface "@[0]);
    past("export type "@, rest, seq!["export async function "@, "export function "@, "async function "@, "function "@]);
    past_word("export type "@, rest, "export default function "@);
    past("export type "@, rest, seq!["export class "@, "export abstract class "@, "class "@]);
    past("export type "@, rest, seq!["export interface "@, "interface "@]);
    reached("export type "@, rest, seq!["export type "@], 0);
}

/// A line of TypeScript that begins with the words of a definition defines
/// the name behind them.
pub proof fn script_lines_define(name: Seq<char>, tail: Seq<char>)
    requires
        spelled(name),
        set_off(tail),
    ensures
        ts_symbol("export async function "@ + name + tail) == Some((SymbolKind::Function, name)),
        ts_symbol("export function "@ + name + tail) == Some((SymbolKind::Function, name)),
        ts_symbol("async function "@ + name + tail) == Some((SymbolKind::Function, name)),
        ts_symbol("function "@ + name + tail) == Some((SymbolKind::Function, name)),
        ts_symbol("export default function "@ + name + tail) == Some((SymbolKind::Function, name)),
        ts_symbol("export class "@ + name + tail) == Some((SymbolKind::Class, name)),
        ts_symbol("export abstract class "@ + name + tail) == Some((SymbolKind::Class, name)),
        ts_symbol("class "@ + name + tail) == Some((SymbolKind::Class, name)),
        ts_symbol("export interface "@ + name + tail) == Some((SymbolKind::Struct, name)),
        ts_symbol("interface "@ + name + tail) == Some((SymbolKind::Struct, name)),
        ts_symbol("export type "@ + name + tail) == Some((SymbolKind::Other, name)),
{
    script_functions(name, tail);
    script_default(name, tail);
    script_classes(name, tail);
    script_structs(name, tail);
    script_types(name, tail);
}

/// A line that binds a name with `const` or `let` defines a function where
/// an arrow or a function follows, and nothing where none does.
pub proof fn bound_functions_are_defined(name: Seq<char>, tail: Seq<char>)
    requires
        spelled(name),
        set_off(tail),
    ensures
        ({
            let bound = text::contains(tail, "=>"@) || text::contains(tail, "= async"@)
                || text::contains(tail, "= function"@);
            let r = if bound {
                Some((SymbolKind::Function, name))
            } else {
                None
            };
            &&& ts_symbol("export const "@ + name + tail) == r
            &&& ts_symbol("export let "@ + name + tail) == r
            &&& ts_symbol("const "@ + name + tail) == r
            &&& ts_symbol("let "@ + name + tail) == r
        }),
{
    reveal_strlit("=>");
    reveal_strlit("= async");
    reveal_strlit("= function");
    let words = seq!["export const "@, "export let "@, "const "@, "let "@];
    reveal_strlit("export const ");
    reveal_strlit("export let ");
    reveal_strlit("const ");
    reveal_strlit("let ");
    let rest = name + tail;
    assert(Seq::<char>::empty() + name + tail =~= rest);
    name_is_read(Seq::empty(), name, tail);
    assert forall|n: int| 0 <= n < 4 implies ts_symbol(#[trigger] words[n] + rest) == (if text::contains(
        tail,
        "=>"@,
    ) || text::contains(tail, "= async"@) || text::contains(tail, "= function"@) {
        Some((SymbolKind::Function, name))
    } else {
        None
    }) by {
        let w = words[n];
        bound_words(w);
        assert(words[0][7] != words[1][7]);
        assert(words[0][0] != words[2][0] && words[1][0] != words[2][0]);
        assert(words[0][0] != words[3][0] && words[1][0] != words[3][0]);
        assert(words[2][0] != words[3][0]);
        let f = seq![
            "export async function "@,
            "export function "@,
            "async function "@,
            "function "@,
        ];
        past(w, rest, f);
        past_word(w, rest, "export default function "@);
        past(w, rest, seq!["export class "@, "export abstract class "@, "class "@]);
        past(w, rest, seq!["export interface "@, "interface "@]);
        past(w, rest, seq!["export type "@]);
        reached(w, rest, words, n);
        let front = w + name;
        assert(front + tail =~= w + rest);
        assert forall|i: int| 0 <= i < front.len() implies #[trigger] front[i] != '=' by {
            if i >= w.len() {
                assert(front[i] == name[i - w.len()]);
            }
        }
        held_behind(front, tail, "=>"@);
        held_behind(front, tail, "= async"@);
        held_behind(front, tail, "= function"@);
    }
    assert(words[0] + name + tail =~= words[0] + rest);
    assert(words[1] + name + tail =~= words[1] + rest);
    assert(words[2] + name + tail =~= words[2] + rest);
    assert(words[3] + name + tail =~= words[3] + rest);
}

proof fn bound_words(w: Seq<char>)
    requires
        seq!["export const "@, "export let "@, "const "@, "let "@].contains(w),
    ensures
        apart(w, "export async function "@),
        apart(w, "export function "@),
        apart(w, "async function "@),
        apart(w, "function "@),
        apart(w, "export default function "@),
        apart(w, "export class "@),
        apart(w, "export abstract class "@),
        apart(w, "class "@),
        apart(w, "export interface "@),
        apart(w, "interface "@),
        apart(w, "export type "@),
{
    reveal_strlit("export const ");
    reveal_strlit("export let ");
    reveal_strlit("const ");
    reveal_strlit("let ");
    reveal_strlit("export async function ");
    reveal_strlit("export function ");
    reveal_strlit("async function ");
    reveal_strlit("function ");
    reveal_strlit("export default function ");
    reveal_strlit("export class ");
    reveal_strlit("export abstract class ");
    reveal_strlit("class ");
    reveal_strlit("export interface ");
    reveal_strlit("interface ");
    reveal_strlit("export type ");
    let words = seq!["export const "@, "export let "@, "const "@, "let "@];
    let n = choose|n: int| 0 <= n < words.len() && words[n] == w;
    if n < 2 {
        assert(w[7] != "export async function "@[7] || w[8] != "export async function "@[8]);
        assert(w[7] != "export function "@[7]);
        assert(w[0] != "async function "@[0]);
        assert(w[0] != "function "@[0]);
        assert(w[7] != "export default function "@[7]);
        assert(w[7] != "export class "@[7] || w[8] != "export class "@[8]);
        assert(w[7] != "export abstract class "@[7]);
        assert(w[0] != "class "@[0]);
        assert(w[7] != "export interface "@[7]);
        assert(w[0] != "interface "@[0]);
        assert(w[7] != "export type "@[7]);
    } else {
        assert(w[0] != "export async function "@[0]);
        assert(w[0] != "export function "@[0]);
        assert(w[0] != "async function "@[0]);
        assert(w[0] != "function "@[0]);
        assert(w[0] != "export default function "@[0]);
        assert(w[0] != "export class "@[0]);
        assert(w[0] != "export abstract class "@[0]);
        assert(w[0] != "class "@[0] || w[1] != "class "@[1]);
        assert(w[0] != "export interface "@[0]);
        assert(w[0] != "interface "@[0]);
        assert(w[0] != "export type "@[0]);
    }
}

/// A line of Go that begins with `func` defines the function behind it, or
/// the method behind a receiver in parentheses; one that begins with `type`
/// defines the type behind it.
pub proof fn go_lines_define(receiver: Seq<char>, name: Seq<char>, tail: Seq<char>)
    requires
        spelled(name),
        set_off(tail),
        !receiver.contains(')'),
    ensures
        go_symbol("func "@ + name + tail) == Some((SymbolKind::Function, name)),
        go_symbol("func ("@ + receiver + ") "@ + name + tail) == Some((SymbolKind::Method, name)),
        go_symbol("type "@ + name + tail) == Some((SymbolKind::Struct, name)),
{
    reveal_strlit("func ");
    reveal_strlit("func (");
    reveal_strlit("type ");
    reveal_strlit(") ");
    reveal_strlit("(");
    reveal_strlit(")");
    let rest = name + tail;
    assert(Seq::<char>::empty() + name + tail =~= rest);
    name_is_read(Seq::empty(), name, tail);
    assert("func "@ + name + tail =~= "func "@ + rest);
    behind_it("func "@, rest);
    assert(rest[0] == name[0]);
    if text::begins(rest, "("@) {
        assert(rest.subrange(0, 1)[0] == rest[0]);
    }
    assert("type "@ + name + tail =~= "type "@ + rest);
    assert("type "@[0] != "func "@[0]);
    past_word("type "@, rest, "func "@);
    reached("type "@, rest, seq!["type "@], 0);
    let front = "("@ + receiver;
    let back = " "@ + rest;
    reveal_strlit(" ");
    let r = front + ")"@ + back;
    assert("func ("@ + receiver + ") "@ + name + tail =~= "func "@ + r);
    behind_it("func "@, r);
    assert(r.subrange(0, 1) =~= "("@);
    assert(!front.contains(')')) by {
        if front.contains(')') {
            let j = front.index_of(')');
            if j > 0 {
                assert(front[j] == receiver[j - 1]);
                assert(receiver.contains(receiver[j - 1]));
            }
        }
    }
    text::found_behind(front, ")"@, back);
    let i = front.len() as int;
    assert(r[i + 1] == ' ');
    assert(r.skip(i + 2) =~= rest);
}

/// A line of C that begins with `struct` defines the name behind it.
pub proof fn struct_lines_define(name: Seq<char>, tail: Seq<char>)
    requires
        spelled(name),
        set_off(tail),
    ensures
        c_symbol("struct "@ + name + tail) == Some((SymbolKind::Struct, name)),
        c_symbol("typedef struct "@ + name + tail) == Some((SymbolKind::Struct, name)),
{
    reveal_strlit("struct ");
    reveal_strlit("typedef struct ");
    let rest = name + tail;
    assert(Seq::<char>::empty() + name + tail =~= rest);
    name_is_read(Seq::empty(), name, tail);
    assert("struct "@ + name + tail =~= "struct "@ + rest);
    assert("typedef struct "@ + name + tail =~= "typedef struct "@ + rest);
    assert("typedef struct "@[0] != "struct "@[0]);
    reached("struct "@, rest, seq!["struct "@, "typedef struct "@], 0);
    reached("typedef struct "@, rest, seq!["struct "@, "typedef struct "@], 1);
}

/// The language goes by the extension, and a line of a file of another kind
/// defines nothing.
pub proof fn language_goes_by_extension(line: Seq<char>, ext: Seq<char>)
    ensures
        line_symbol(line, "rs"@) == rust_symbol(line),
        line_symbol(line, "ts"@) == ts_symbol(line),
        line_symbol(line, "tsx"@) == ts_symbol(line),
        line_symbol(line, "js"@) == ts_symbol(line),
        line_symbol(line, "jsx"@) == ts_symbol(line),
        line_symbol(line, "py"@) == python_symbol(line),
        line_symbol(line, "go"@) == go_symbol(line),
        line_symbol(line, "c"@) == c_symbol(line),
        line_symbol(line, "cpp"@) == c_symbol(line),
        line_symbol(line, "h"@) == c_symbol(line),
        line_symbol(line, "hpp"@) == c_symbol(line),
        !source_extensions().contains(ext) ==> line_symbol(line, ext) is None,
{
    reveal_strlit("rs");
    reveal_strlit("ts");
    reveal_strlit("tsx");
    reveal_strlit("js");
    reveal_strlit("jsx");
    reveal_strlit("py");
    reveal_strlit("go");
    reveal_strlit("c");
    reveal_strlit("cpp");
    reveal_strlit("h");
    reveal_strlit("hpp");
    let t = seq!["ts"@, "tsx"@, "js"@, "jsx"@];
    assert(t[0] == "ts"@ && t[1] == "tsx"@ && t[2] == "js"@ && t[3] == "jsx"@);
    let c = seq!["c"@, "cpp"@, "h"@, "hpp"@];
    assert(c[0] == "c"@ && c[1] == "cpp"@ && c[2] == "h"@ && c[3] == "hpp"@);
    assert("rs"@[0] != "ts"@[0] && "rs"@[0] != "js"@[0]);
    assert("py"@[0] != "rs"@[0] && "go"@[0] != "rs"@[0]);
    assert("py"@[0] != "ts"@[0] && "py"@[0] != "tsx"@[0] && "py"@[0] != "js"@[0] && "py"@[0]
        != "jsx"@[0]);
    assert("go"@[0] != "ts"@[0] && "go"@[0] != "tsx"@[0] && "go"@[0] != "js"@[0] && "go"@[0]
        != "jsx"@[0] && "go"@[0] != "py"@[0]);
    assert("cpp"@[0] != "tsx"@[0] && "cpp"@[0] != "jsx"@[0] && "hpp"@[0] != "tsx"@[0] && "hpp"@[0]
        != "jsx"@[0]);
    let all = source_extensions();
    assert(all[0] == "rs"@ && all[1] == "ts"@ && all[2] == "tsx"@ && all[3] == "js"@ && all[4]
        == "jsx"@ && all[5] == "py"@ && all[6] == "go"@ && all[7] == "c"@ && all[8] == "cpp"@
        && all[9] == "h"@ && all[10] == "hpp"@);
    if t.contains(ext) {
        let k = choose|k: int| 0 <= k < t.len() && t[k] == ext;
        assert(all[k + 1] == ext);
    }
    if c.contains(ext) {
        let k = choose|k: int| 0 <= k < c.len() && c[k] == ext;
        assert(all[k + 7] == ext);
    }
}

// ── Signatures ───────────────────────────────────────────────────────────────

/// `s`, cut at the last comma or space that leaves at most `max`
/// characters.
pub open spec fn cut_at_word(s: Seq<char>, max: int) -> Seq<char> {
    if s.len() <= max {
        s
    } else {
        let f = text::first_chars(s, max);
        (match text::last_of(f, CharSet::OneOf(", ")) {
            Some(i) => f.take(i),
            None => f,
        }) + "…"@
    }
}

/// `s`, cut at a word boundary to fit within `max` characters.
pub fn truncate_at_word(s: &str, max: usize) -> (r: String)
    ensures
        r@ == cut_at_word(s@, max as int),
{
    if count(s) <= max {
        return s.to_owned();
    }
    let f = take_chars(s, max);
    let mut r = match rfind_set(f.as_str(), CharSet::OneOf(", ")) {
        Some(i) => {
            let t = cut(f.as_str(), 0, i);
            assert(t@ =~= f@.take(i as int));
            t
        },
        None => f,
    };
    r.append("…");
    r
}

/// A text that fits is kept. Another is cut in front of its last comma or
/// space within the limit, or at the limit where there is none, and the cut
/// shows.
pub proof fn cut_falls_between_words(s: Seq<char>, max: int)
    requires
        max >= 0,
    ensures
        s.len() <= max ==> cut_at_word(s, max) == s,
        s.len() > max ==> {
            let r = cut_at_word(s, max);
            let n = r.len() - 1;
            &&& 0 <= n <= max
            &&& r == s.take(n) + "…"@
            &&& n < max ==> s[n] == ',' || s[n] == ' '
            &&& forall|k: int| n < k < max ==> (#[trigger] s[k]) != ',' && s[k] != ' '
            &&& n == max ==> forall|k: int| 0 <= k < max ==> (#[trigger] s[k]) != ',' && s[k] != ' '
        },
{
    reveal_strlit("…");
    reveal_strlit(", ");
    if s.len() > max {
        let f = s.take(max);
        assert(text::first_chars(s, max) =~= f);
        last_is_last(f);
        match text::last_of(f, CharSet::OneOf(", ")) {
            Some(i) => {
                assert(f.take(i) =~= s.take(i));
                assert(f[i] == s[i]);
                assert forall|k: int| i < k < max implies (#[trigger] s[k]) != ',' && s[k] != ' ' by {
                    assert(f[k] == s[k]);
                }
            },
            None => {
                assert forall|k: int| 0 <= k < max implies (#[trigger] s[k]) != ',' && s[k] != ' ' by {
                    assert(f[k] == s[k]);
                }
            },
        }
    }
}

proof fn last_is_last(f: Seq<char>)
    ensures
        match text::last_of(f, CharSet::OneOf(", ")) {
            Some(i) => 0 <= i < f.len() && (f[i] == ',' || f[i] == ' ') && forall|k: int|
                i < k < f.len() ==> (#[trigger] f[k]) != ',' && f[k] != ' ',
            None => forall|k: int| 0 <= k < f.len() ==> (#[trigger] f[k]) != ',' && f[k] != ' ',
        },
    decreases f.len(),
{
    reveal_strlit(", ");
    let t = ", "@;
    assert(t[0] == ',' && t[1] == ' ');
    if f.len() > 0 {
        let c = f.last();
        assert(t.contains(c) <==> c == ',' || c == ' ');
        let g = f.drop_last();
        last_is_last(g);
        assert forall|k: int| 0 <= k < g.len() implies #[trigger] f[k] == g[k] by {}
    }
}

/// The lines from `i` on, trimmed and one behind the other, up to the line
/// that ends the head of the function or makes it too long.
pub open spec fn head_text(ls: Seq<Seq<char>>, i: int, acc: Seq<char>) -> Seq<char>
    decreases ls.len() - i,
{
    if i < 0 || i >= ls.len() {
        acc
    } else {
        let t = text::trim(ls[i]);
        let a = acc.push(' ') + t;
        if text::ends(t, "{"@) || text::ends(t, ";"@) || number::width(a) > 300 {
            a
        } else {
            head_text(ls, i + 1, a)
        }
    }
}

/// What stands between the first parenthesis and the last ` {` of a head.
pub open spec fn fn_signature(ls: Seq<Seq<char>>, start: int) -> Option<Seq<char>> {
    let sig = head_text(ls, start, Seq::empty());
    match (text::find(sig, "("@), text::find_last(sig, " {"@)) {
        (Some(a), Some(b)) => if a <= b {
            Some(cut_at_word(text::trim(sig.subrange(a, b)), 120))
        } else {
            None
        },
        _ => None,
    }
}

/// Of a head on one line, the signature is what stands between its first
/// parenthesis and the brace at its end.
pub proof fn signature_of_one_line(ls: Seq<Seq<char>>, i: int, pre: Seq<char>, mid: Seq<char>)
    requires
        0 <= i < ls.len(),
        text::trim(ls[i]) == pre + "("@ + mid + " {"@,
        !pre.contains('('),
    ensures
        fn_signature(ls, i) == Some(cut_at_word(text::trim("("@ + mid), 120)),
{
    reveal_strlit("(");
    reveal_strlit("{");
    reveal_strlit(" {");
    let t = text::trim(ls[i]);
    let n = t.len() as int;
    assert(t.subrange(n - 1, n) =~= "{"@);
    assert(text::ends(t, "{"@));
    let sig = Seq::<char>::empty().push(' ') + t;
    assert(head_text(ls, i, Seq::empty()) == sig);
    let front = seq![' '] + pre;
    let back = mid + " {"@;
    let a = front.len() as int;
    assert(sig =~= front + "("@ + back);
    assert(!front.contains('(')) by {
        if front.contains('(') {
            let j = front.index_of('(');
            if j > 0 {
                assert(front[j] == pre[j - 1]);
                assert(pre.contains(pre[j - 1]));
            }
        }
    }
    text::found_behind(front, "("@, back);
    let b = sig.len() - 2;
    assert(sig.subrange(b, b + 2) =~= " {"@);
    assert(sig.skip(b) =~= " {"@);
    assert(text::find_last(sig, " {"@) == Some(b));
    assert(sig.subrange(a, b) =~= "("@ + mid);
}

/// The parameters and the result of the function whose head begins at
/// line `start`.
pub fn extract_fn_signature(lines: &Vec<String>, start: usize) -> (r: Option<String>)
    ensures
        text::opt_text(r) == fn_signature(text::views(lines@), start as int),
{
    let ghost ls = text::views(lines@);
    let mut sig = String::new();
    let mut i: usize = start;
    let mut done: bool = false;
    while i < lines.len() && !done
        invariant
            ls == text::views(lines@),
            done ==> head_text(ls, start as int, Seq::empty()) == sig@,
            !done ==> head_text(ls, start as int, Seq::empty()) == head_text(ls, i as int, sig@),
        decreases lines.len() - i,
    {
        let t = trimmed(lines[i].as_str());
        assert(ls[i as int] == lines@[i as int]@);
        sig.push(' ');
        sig.append(t.as_str());
        if finishes_with(t.as_str(), "{") || finishes_with(t.as_str(), ";") || byte_len(sig.as_str())
            > 300 {
            done = true;
        }
        i += 1;
    }
    match (find_str(sig.as_str(), "("), rfind_str(sig.as_str(), " {")) {
        (Some(a), Some(b)) => {
            if a <= b {
                let inner = cut(sig.as_str(), a, b);
                let inner = trimmed(inner.as_str());
                Some(truncate_at_word(inner.as_str(), 120))
            } else {
                None
            }
        },
        _ => None,
    }
}

/// The field that a line of a struct's body declares: its `pub` is dropped,
/// and so is a comment behind it.
pub open spec fn field_of(t: Seq<char>) -> Option<Seq<char>> {
    if text::begins(t, "pub "@) && text::contains(t, ":"@) && !text::begins(t, "pub fn"@) {
        let f = pieces::trim_start_text(pieces::trim_start_text(t, "pub(crate) "@), "pub "@);
        let f = text::trim_end_set(
            text::trim(pieces::before_text(f, "//"@)),
            CharSet::OneOf(","),
        );
        if f.len() > 0 {
            Some(f)
        } else {
            None
        }
    } else {
        None
    }
}

/// A line that declares a public field gives the field's name and type.
pub proof fn field_is_read(f: Seq<char>)
    requires
        f.len() > 0,
        !text::is_white(f[0]),
        !text::is_white(f.last()),
        f.last() != ',',
        text::contains(f, ":"@),
        !text::contains(f, "/"@),
        !text::begins(f, "pub "@),
        !text::begins(f, "fn"@),
    ensures
        field_of("pub "@ + f + ","@) == Some(f),
{
    reveal_strlit("pub ");
    reveal_strlit("pub fn");
    reveal_strlit("fn");
    reveal_strlit("pub(crate) ");
    reveal_strlit(":");
    reveal_strlit(",");
    reveal_strlit("/");
    reveal_strlit("//");
    let t = "pub "@ + f + ","@;
    let g = f + ","@;
    assert(t =~= "pub "@ + g);
    behind_it("pub "@, g);
    assert(text::begins(t, "pub "@));
    let c = choose|c: int| text::occurs_at(f, ":"@, c);
    assert(t.subrange(c + 4, c + 5) =~= f.subrange(c, c + 1));
    assert(text::occurs_at(t, ":"@, c + 4));
    if text::begins(t, "pub fn"@) {
        let u = t.subrange(0, 6);
        assert(u[4] == t[4] && u[5] == t[5]);
        assert(f[0] == 'f');
        if f.len() > 1 {
            assert(t[5] == f[1]);
            assert(f.subrange(0, 2) =~= "fn"@);
        } else {
            assert(t[5] == ',');
        }
    }
    not_behind(t, "pub(crate) "@, 3);
    assert(pieces::trim_start_text(t, "pub(crate) "@) == t);
    assert(t.skip(4) =~= g);
    if text::begins(g, "pub "@) {
        let u = g.subrange(0, 4);
        assert(u[0] == g[0] && u[1] == g[1] && u[2] == g[2] && u[3] == g[3]);
        if f.len() >= 4 {
            assert(f.subrange(0, 4) =~= u);
        } else {
            assert(g[f.len() as int] == ',');
            assert(u[f.len() as int] == ',');
        }
    }
    reveal_with_fuel(pieces::trim_start_text, 3);
    assert(pieces::trim_start_text(t, "pub "@) == g);
    text::find_is_first(g, "//"@);
    if text::contains(g, "//"@) {
        let i = choose|i: int| text::occurs_at(g, "//"@, i);
        let u = g.subrange(i, i + 2);
        assert(u[0] == g[i]);
        assert(u[1] == g[i + 1]);
        assert(g[i] == f[i]);
        assert(f.subrange(i, i + 1) =~= "/"@);
        assert(text::occurs_at(f, "/"@, i));
    }
    assert(pieces::before_text(g, "//"@) == g);
    assert(g[0] == f[0]);
    lead_white(Seq::empty(), g);
    assert(Seq::<char>::empty() + g =~= g);
    assert(g.last() == ',');
    assert(g.take(g.len() as int) =~= g);
    assert(text::trim(g) == g);
    let comma = CharSet::OneOf(",");
    assert(","@[0] == ',');
    assert(","@.contains(','));
    assert(g.drop_last() =~= f);
    assert(!","@.contains(f.last()));
    reveal_with_fuel(text::trail, 3);
    assert(text::trail(g, comma) == 1);
    assert(g.take(g.len() - 1) =~= f);
}

/// The fields from line `i` on, behind those found, twelve at most.
pub open spec fn fields_from(
    ls: Seq<Seq<char>>,
    i: int,
    in_body: bool,
    acc: Seq<Seq<char>>,
) -> Seq<Seq<char>>
    decreases ls.len() - i,
{
    if i < 0 || i >= ls.len() {
        acc
    } else {
        let t = text::trim(ls[i]);
        if !in_body {
            fields_from(ls, i + 1, text::contains(t, "{"@), acc)
        } else if t == "}"@ {
            acc
        } else {
            let a = match field_of(t) {
                Some(f) => acc.push(f),
                None => acc,
            };
            if a.len() >= 12 {
                a
            } else {
                fields_from(ls, i + 1, true, a)
            }
        }
    }
}

pub open spec fn listed_names(names: Seq<Seq<char>>) -> Option<Seq<char>> {
    if names.len() == 0 {
        None
    } else {
        Some(cut_at_word(pieces::join(names, ", "@), 120))
    }
}

fn field_of_line(t: &str) -> (r: Option<String>)
    ensures
        text::opt_text(r) == field_of(t@),
{
    if begins_with(t, "pub ") && holds(t, ":") && !begins_with(t, "pub fn") {
        proof {
            reveal_strlit("pub(crate) ");
            reveal_strlit("pub ");
        }
        let f = trim_front_text(t, "pub(crate) ");
        let f = trim_front_text(f.as_str(), "pub ");
        let f = before_first(f.as_str(), "//");
        let f = trimmed(f.as_str());
        let f = trim_back_by(f.as_str(), CharSet::OneOf(","));
        if !f.as_str().is_empty() {
            return Some(f);
        }
    }
    None
}

fn list_names(names: &Vec<String>) -> (r: Option<String>)
    ensures
        text::opt_text(r) == listed_names(text::views(names@)),
{
    assert(text::views(names@).len() == names@.len());
    if names.len() == 0 {
        return None;
    }
    let all = join_with(names, ", ");
    Some(truncate_at_word(all.as_str(), 120))
}

/// The public fields of the struct whose head stands at line `start`.
pub fn extract_struct_fields(lines: &Vec<String>, start: usize) -> (r: Option<String>)
    ensures
        text::opt_text(r) == listed_names(
            fields_from(text::views(lines@), start as int, false, Seq::empty()),
        ),
{
    let ghost ls = text::views(lines@);
    let ghost goal = fields_from(ls, start as int, false, Seq::empty());
    let mut fields: Vec<String> = Vec::new();
    let mut in_body: bool = false;
    let mut done: bool = false;
    let mut i: usize = start;
    proof {
        text::views_empty();
    }
    while i < lines.len() && !done
        invariant
            ls == text::views(lines@),
            done ==> goal == text::views(fields@),
            !done ==> goal == fields_from(ls, i as int, in_body, text::views(fields@)),
        decreases lines.len() - i,
    {
        let t = trimmed(lines[i].as_str());
        assert(ls[i as int] == lines@[i as int]@);
        if !in_body {
            if holds(t.as_str(), "{") {
                in_body = true;
            }
        } else if same(t.as_str(), "}") {
            done = true;
        } else {
            match field_of_line(t.as_str()) {
                Some(f) => {
                    fields.push(f);
                },
                None => {},
            }
            assert(text::views(fields@).len() == fields@.len());
            if fields.len() >= 12 {
                done = true;
            }
        }
        i += 1;
    }
    list_names(&fields)
}

/// The variant that a line of an enum's body names.
pub open spec fn variant_of(t: Seq<char>) -> Option<Seq<char>> {
    let name = text::trim(pieces::split_set(t, CharSet::NotWord)[0]);
    if identifier(name) {
        Some(name)
    } else {
        None
    }
}

/// A line that names a variant gives the name, whatever follows it.
pub proof fn variant_is_read(name: Seq<char>, tail: Seq<char>)
    requires
        spelled(name),
        set_off(tail),
    ensures
        variant_of(name + tail) == Some(name),
{
    let t = name + tail;
    let n = name.len() as int;
    text::lead_bound(t, CharSet::NotWord, false);
    let m = text::lead(t, CharSet::NotWord, false) as int;
    if m < n {
        assert(t[m] == name[m]);
    } else if m > n {
        assert(t[n] == tail[0]);
    }
    assert(t.take(n) =~= name);
    assert(t.take(n) =~= t || n < t.len());
    assert(pieces::split_set(t, CharSet::NotWord)[0] == name);
    lead_white(Seq::empty(), name);
    assert(Seq::<char>::empty() + name =~= name);
    assert(name.take(n) =~= name);
    assert(text::trail(name, CharSet::White) == 0);
}

/// The variants from line `i` on, behind those found, twelve at most.
pub open spec fn variants_from(
    ls: Seq<Seq<char>>,
    i: int,
    in_body: bool,
    acc: Seq<Seq<char>>,
) -> Seq<Seq<char>>
    decreases ls.len() - i,
{
    if i < 0 || i >= ls.len() {
        acc
    } else {
        let t = text::trim(ls[i]);
        if !in_body {
            variants_from(ls, i + 1, text::contains(t, "{"@), acc)
        } else if t == "}"@ {
            acc
        } else if text::begins(t, "//"@) || text::begins(t, "#"@) {
            variants_from(ls, i + 1, true, acc)
        } else {
            let a = match variant_of(t) {
                Some(v) => acc.push(v),
                None => acc,
            };
            if a.len() >= 12 {
                a
            } else {
                variants_from(ls, i + 1, true, a)
            }
        }
    }
}

/// The variants of the enum whose head stands at line `start`.
pub fn extract_enum_variants(lines: &Vec<String>, start: usize) -> (r: Option<String>)
    ensures
        text::opt_text(r) == listed_names(
            variants_from(text::views(lines@), start as int, false, Seq::empty()),
        ),
{
    let ghost ls = text::views(lines@);
    let ghost goal = variants_from(ls, start as int, false, Seq::empty());
    let mut variants: Vec<String> = Vec::new();
    let mut in_body: bool = false;
    let mut done: bool = false;
    let mut i: usize = start;
    proof {
        text::views_empty();
    }
    while i < lines.len() && !done
        invariant
            ls == text::views(lines@),
            done ==> goal == text::views(variants@),
            !done ==> goal == variants_from(ls, i as int, in_body, text::views(variants@)),
        decreases lines.len() - i,
    {
        let t = trimmed(lines[i].as_str());
        assert(ls[i as int] == lines@[i as int]@);
        if !in_body {
            if holds(t.as_str(), "{") {
                in_body = true;
            }
        } else if same(t.as_str(), "}") {
            done = true;
        } else if !(begins_with(t.as_str(), "//") || begins_with(t.as_str(), "#")) {
            let parts = split_by(t.as_str(), CharSet::NotWord);
            assert(text::views(parts@)[0] == parts@[0]@);
            let name = trimmed(parts[0].as_str());
            if is_ident(name.as_str()) {
                variants.push(name);
            }
            assert(text::views(variants@).len() == variants@.len());
            if variants.len() >= 12 {
                done = true;
            }
        }
        i += 1;
    }
    list_names(&variants)
}

/// Whether `r` lists, behind `acc`, what the lines from `i` to `j` give, each
/// of them and nothing else.
spec fn lists_lines(
    ls: Seq<Seq<char>>,
    i: int,
    j: int,
    give: spec_fn(Seq<char>) -> Option<Seq<char>>,
    acc: Seq<Seq<char>>,
    r: Seq<Seq<char>>,
) -> bool {
    &&& r.len() >= acc.len()
    &&& r.take(acc.len() as int) == acc
    &&& forall|k: int|
        i <= k < j && give(text::trim(#[trigger] ls[k])) is Some ==> r.contains(
            give(text::trim(ls[k]))->0,
        )
    &&& forall|x: int|
        acc.len() <= x < r.len() ==> exists|k: int|
            i <= k < j && give(text::trim(#[trigger] ls[k])) == Some(#[trigger] r[x])
}

proof fn lists_one_more(
    ls: Seq<Seq<char>>,
    i: int,
    j: int,
    give: spec_fn(Seq<char>) -> Option<Seq<char>>,
    acc: Seq<Seq<char>>,
    a: Seq<Seq<char>>,
    r: Seq<Seq<char>>,
)
    requires
        i < j,
        a == (match give(text::trim(ls[i])) {
            Some(f) => acc.push(f),
            None => acc,
        }),
        lists_lines(ls, i + 1, j, give, a, r),
    ensures
        lists_lines(ls, i, j, give, acc, r),
{
    assert(a.take(acc.len() as int) =~= acc);
    assert(r.take(acc.len() as int) =~= r.take(a.len() as int).take(acc.len() as int));
    assert forall|k: int| i <= k < j && give(text::trim(#[trigger] ls[k])) is Some implies r.contains(
        give(text::trim(ls[k]))->0,
    ) by {
        if k == i {
            let n = acc.len() as int;
            assert(r[n] == r.take(a.len() as int)[n]);
        }
    }
    assert forall|x: int| acc.len() <= x < r.len() implies exists|k: int|
        i <= k < j && give(text::trim(#[trigger] ls[k])) == Some(#[trigger] r[x]) by {
        if x < a.len() {
            assert(r[x] == r.take(a.len() as int)[x]);
            assert(give(text::trim(ls[i])) == Some(r[x]));
        } else {
            let k = choose|k: int|
                i + 1 <= k < j && give(text::trim(#[trigger] ls[k])) == Some(#[trigger] r[x]);
            assert(give(text::trim(ls[k])) == Some(r[x]));
        }
    }
}

spec fn field_given() -> spec_fn(Seq<char>) -> Option<Seq<char>> {
    |t: Seq<char>| field_of(t)
}

spec fn variant_given() -> spec_fn(Seq<char>) -> Option<Seq<char>> {
    |t: Seq<char>|
        if text::begins(t, "//"@) || text::begins(t, "#"@) {
            None
        } else {
            variant_of(t)
        }
}

proof fn body_fields(ls: Seq<Seq<char>>, i: int, j: int, acc: Seq<Seq<char>>)
    requires
        0 <= i <= j < ls.len(),
        text::trim(ls[j]) == "}"@,
        forall|k: int| i <= k < j ==> text::trim(#[trigger] ls[k]) != "}"@,
        acc.len() + (j - i) < 12,
    ensures
        lists_lines(ls, i, j, field_given(), acc, fields_from(ls, i, true, acc)),
    decreases j - i,
{
    assert(acc.take(acc.len() as int) =~= acc);
    if i < j {
        let a = match field_of(text::trim(ls[i])) {
            Some(f) => acc.push(f),
            None => acc,
        };
        body_fields(ls, i + 1, j, a);
        lists_one_more(ls, i, j, field_given(), acc, a, fields_from(ls, i + 1, true, a));
    }
}

proof fn body_variants(ls: Seq<Seq<char>>, i: int, j: int, acc: Seq<Seq<char>>)
    requires
        0 <= i <= j < ls.len(),
        text::trim(ls[j]) == "}"@,
        forall|k: int| i <= k < j ==> text::trim(#[trigger] ls[k]) != "}"@,
        acc.len() + (j - i) < 12,
    ensures
        lists_lines(ls, i, j, variant_given(), acc, variants_from(ls, i, true, acc)),
    decreases j - i,
{
    assert(acc.take(acc.len() as int) =~= acc);
    if i < j {
        let t = text::trim(ls[i]);
        let g = variant_given();
        let a = match g(t) {
            Some(v) => acc.push(v),
            None => acc,
        };
        body_variants(ls, i + 1, j, a);
        lists_one_more(ls, i, j, g, acc, a, variants_from(ls, i + 1, true, a));
    }
}

/// Of a struct or an enum with a short body, whose head holds the opening
/// brace, the fields are those of the public field lines up to the closing
/// brace, and the variants those of the lines that are neither comments nor
/// attributes: each of them, and nothing else.
pub proof fn bodies_are_listed(ls: Seq<Seq<char>>, start: int, end: int)
    requires
        0 <= start < end < ls.len(),
        end - start <= 12,
        text::contains(text::trim(ls[start]), "{"@),
        text::trim(ls[end]) == "}"@,
        forall|k: int| start < k < end ==> text::trim(#[trigger] ls[k]) != "}"@,
    ensures
        ({
            let r = fields_from(ls, start, false, Seq::empty());
            &&& forall|k: int|
                start < k < end && field_of(text::trim(#[trigger] ls[k])) is Some ==> r.contains(
                    field_of(text::trim(ls[k]))->0,
                )
            &&& forall|x: int|
                0 <= x < r.len() ==> exists|k: int|
                    start < k < end && field_of(text::trim(#[trigger] ls[k])) == Some(#[trigger] r[x])
        }),
        ({
            let r = variants_from(ls, start, false, Seq::empty());
            &&& forall|k: int|
                start < k < end && !text::begins(text::trim(#[trigger] ls[k]), "//"@)
                    && !text::begins(text::trim(ls[k]), "#"@) && variant_of(text::trim(ls[k])) is Some
                    ==> r.contains(variant_of(text::trim(ls[k]))->0)
            &&& forall|x: int|
                0 <= x < r.len() ==> exists|k: int|
                    start < k < end && variant_of(text::trim(#[trigger] ls[k])) == Some(
                        #[trigger] r[x],
                    )
        }),
{
    body_fields(ls, start + 1, end, Seq::empty());
    body_variants(ls, start + 1, end, Seq::empty());
    let f = fields_from(ls, start, false, Seq::empty());
    let v = variants_from(ls, start, false, Seq::empty());
    assert forall|k: int| start < k < end && field_of(text::trim(#[trigger] ls[k])) is Some implies f.contains(
        field_of(text::trim(ls[k]))->0,
    ) by {
        assert(field_given()(text::trim(ls[k])) is Some);
    }
    assert forall|x: int| 0 <= x < f.len() implies exists|k: int|
        start < k < end && field_of(text::trim(#[trigger] ls[k])) == Some(#[trigger] f[x]) by {
        let k = choose|k: int|
            start + 1 <= k < end && field_given()(text::trim(#[trigger] ls[k])) == Some(
                #[trigger] f[x],
            );
        assert(field_of(text::trim(ls[k])) == Some(f[x]));
    }
    assert forall|k: int|
        start < k < end && !text::begins(text::trim(#[trigger] ls[k]), "//"@) && !text::begins(
            text::trim(ls[k]),
            "#"@,
        ) && variant_of(text::trim(ls[k])) is Some implies v.contains(
        variant_of(text::trim(ls[k]))->0,
    ) by {
        assert(variant_given()(text::trim(ls[k])) is Some);
    }
    assert forall|x: int| 0 <= x < v.len() implies exists|k: int|
        start < k < end && variant_of(text::trim(#[trigger] ls[k])) == Some(#[trigger] v[x]) by {
        let k = choose|k: int|
            start + 1 <= k < end && variant_given()(text::trim(#[trigger] ls[k])) == Some(
                #[trigger] v[x],
            );
        assert(variant_of(text::trim(ls[k])) == Some(v[x]));
    }
}

/// The short interface of the symbol at line `i`, for Rust alone.
pub open spec fn signature_at(
    kind: SymbolKind,
    ext: Seq<char>,
    ls: Seq<Seq<char>>,
    i: int,
) -> Option<Seq<char>> {
    if ext != "rs"@ {
        None
    } else {
        match kind {
            SymbolKind::Function => fn_signature(ls, i),
            SymbolKind::Struct => listed_names(fields_from(ls, i, false, Seq::empty())),
            SymbolKind::Enum => listed_names(variants_from(ls, i, false, Seq::empty())),
            _ => None,
        }
    }
}

/// The short interface of the symbol at line `start`.
pub fn extract_signature(kind: SymbolKind, ext: &str, lines: &Vec<String>, start: usize) -> (r: Option<
    String,
>)
    ensures
        text::opt_text(r) == signature_at(kind, ext@, text::views(lines@), start as int),
{
    if !same(ext, "rs") {
        return None;
    }
    match kind {
        SymbolKind::Function => extract_fn_signature(lines, start),
        SymbolKind::Struct => extract_struct_fields(lines, start),
        SymbolKind::Enum => extract_enum_variants(lines, start),
        _ => None,
    }
}

// ── A whole file ─────────────────────────────────────────────────────────────

/// The symbol that line `i` defines. Indented lines define none.
pub open spec fn symbol_at(ls: Seq<Seq<char>>, ext: Seq<char>, file: Seq<char>, i: int) -> Option<
    SymbolView,
> {
    if ls[i].len() == 0 || text::is_white(ls[i][0]) {
        None
    } else {
        match line_symbol(text::trim(ls[i]), ext) {
            Some((kind, name)) => Some(
                SymbolView {
                    name,
                    file,
                    line: i + 1,
                    end_line: i + 1,
                    kind,
                    signature: signature_at(kind, ext, ls, i),
                },
            ),
            None => None,
        }
    }
}

/// The symbols of the first `n` lines.
pub open spec fn symbols_upto(ls: Seq<Seq<char>>, ext: Seq<char>, file: Seq<char>, n: int) -> Seq<
    SymbolView,
>
    decreases n,
{
    if n <= 0 {
        Seq::empty()
    } else {
        match symbol_at(ls, ext, file, n - 1) {
            Some(s) => symbols_upto(ls, ext, file, n - 1).push(s),
            None => symbols_upto(ls, ext, file, n - 1),
        }
    }
}

/// Whether `r` tells of the first `n` lines what they define.
pub open spec fn tells_of_lines(
    ls: Seq<Seq<char>>,
    ext: Seq<char>,
    file: Seq<char>,
    n: int,
    r: Seq<SymbolView>,
) -> bool {
    &&& forall|j: int|
        0 <= j < r.len() ==> {
            let s = #[trigger] r[j];
            &&& 1 <= s.line <= n
            &&& s.file == file
            &&& !text::is_white(ls[s.line - 1][0])
            &&& line_symbol(text::trim(ls[s.line - 1]), ext) == Some((s.kind, s.name))
            &&& s.signature == signature_at(s.kind, ext, ls, s.line - 1)
        }
    &&& forall|j: int, k: int| 0 <= j < k < r.len() ==> (#[trigger] r[j]).line < (#[trigger] r[k]).line
    &&& forall|i: int|
        0 <= i < n && (#[trigger] ls[i]).len() > 0 && !text::is_white(ls[i][0]) && line_symbol(
            text::trim(ls[i]),
            ext,
        ) is Some ==> exists|j: int| 0 <= j < r.len() && (#[trigger] r[j]).line == i + 1
}

proof fn upto_tells(ls: Seq<Seq<char>>, ext: Seq<char>, file: Seq<char>, n: int)
    requires
        0 <= n <= ls.len(),
    ensures
        tells_of_lines(ls, ext, file, n, symbols_upto(ls, ext, file, n)),
    decreases n,
{
    if n > 0 {
        upto_tells(ls, ext, file, n - 1);
        let before = symbols_upto(ls, ext, file, n - 1);
        let r = symbols_upto(ls, ext, file, n);
        assert forall|i: int|
            0 <= i < n && (#[trigger] ls[i]).len() > 0 && !text::is_white(ls[i][0]) && line_symbol(
                text::trim(ls[i]),
                ext,
            ) is Some implies exists|j: int| 0 <= j < r.len() && (#[trigger] r[j]).line == i + 1 by {
            if i < n - 1 {
                let j = choose|j: int| 0 <= j < before.len() && (#[trigger] before[j]).line == i + 1;
                assert(r[j] == before[j]);
            } else {
                assert(r[r.len() - 1].line == n);
            }
        }
    }
}

/// The symbols of a file are what its lines define: one for each line that
/// is not indented and defines something, no other, and from top to bottom.
pub proof fn symbols_tell_of_lines(content: Seq<char>, file: Seq<char>)
    ensures
        tells_of_lines(
            pieces::lines(content),
            paths::extension(file),
            file,
            pieces::lines(content).len() as int,
            file_symbols(content, file),
        ),
{
    let ls = pieces::lines(content);
    upto_tells(ls, paths::extension(file), file, ls.len() as int);
}

/// The symbols of a file, from top to bottom.
pub open spec fn file_symbols(content: Seq<char>, file: Seq<char>) -> Seq<SymbolView> {
    let ls = pieces::lines(content);
    symbols_upto(ls, paths::extension(file), file, ls.len() as int)
}

/// Adds the symbols of a file to `out`.
pub fn extract_symbols(content: &str, file: &str, out: &mut Vec<Symbol>)
    ensures
        final(out)@.len() >= old(out)@.len(),
        final(out)@.take(old(out)@.len() as int) == old(out)@,
        symbol_views(final(out)@.skip(old(out)@.len() as int)) == file_symbols(content@, file@),
{
    let ext = extension_of(file);
    let lines = lines_of(content);
    let ghost ls = text::views(lines@);
    let ghost start = out@;
    let ghost k = out@.len() as int;
    let mut i: usize = 0;
    proof {
        assert(out@.take(k) =~= start);
        assert(symbol_views(out@.skip(k)) =~= Seq::<SymbolView>::empty());
    }
    while i < lines.len()
        invariant
            i <= lines.len(),
            ls == text::views(lines@),
            ext@ == paths::extension(file@),
            k == start.len(),
            out@.len() >= k,
            out@.take(k) == start,
            symbol_views(out@.skip(k)) == symbols_upto(ls, ext@, file@, i as int),
        decreases lines.len() - i,
    {
        let line = &lines[i];
        assert(ls[i as int] == line@);
        let cs = to_chars(line.as_str());
        if cs.len() > 0 && !char_is_white(cs[0]) {
            let t = trimmed(line.as_str());
            match symbol_of_line(t.as_str(), ext.as_str()) {
                Some((kind, name)) => {
                    let signature = extract_signature(kind, ext.as_str(), &lines, i);
                    let sym = Symbol {
                        name,
                        file: file.to_owned(),
                        line: i + 1,
                        end_line: i + 1,
                        kind,
                        signature,
                    };
                    let ghost before = out@;
                    out.push(sym);
                    proof {
                        assert(out@.take(k) =~= before.take(k));
                        assert(symbol_views(out@.skip(k)) =~= symbol_views(before.skip(k)).push(sym@));
                        assert(symbol_at(ls, ext@, file@, i as int) == Some(sym@));
                    }
                },
                None => {},
            }
        }
        i += 1;
    }
}

// ── Order and extent ─────────────────────────────────────────────────────────

/// Whether `a` may stand before `b`: by file, then by line.
pub open spec fn placed(a: SymbolView, b: SymbolView) -> bool {
    order::before(a.file, b.file) || (a.file == b.file && a.line <= b.line)
}

pub open spec fn by_place() -> spec_fn(SymbolView, SymbolView) -> bool {
    |a: SymbolView, b: SymbolView| placed(a, b)
}

pub proof fn by_place_sorts()
    ensures
        order::sorts(by_place()),
{
    let le = by_place();
    assert forall|a: SymbolView, b: SymbolView| #[trigger] le(a, b) || le(b, a) by {
        order::before_total(a.file, b.file);
    }
    assert forall|a: SymbolView, b: SymbolView, c: SymbolView| #[trigger] le(a, b) && #[trigger] le(
        b,
        c,
    ) implies le(a, c) by {
        if order::before(a.file, b.file) && order::before(b.file, c.file) {
            order::before_transitive(a.file, b.file, c.file);
        }
    }
}

/// Sorts symbols by file, then by line.
pub fn sort_symbols(symbols: &mut Vec<Symbol>)
    ensures
        symbol_views(final(symbols)@) == order::sorted_by(symbol_views(old(symbols)@), by_place()),
{
    let ghost rel = |a: Symbol, b: Symbol| placed(a@, b@);
    let ghost raw = symbols@;
    let le = |a: &Symbol, b: &Symbol| -> (r: bool)
        ensures r == placed(a@, b@)
    {
        comes_before(a.file.as_str(), b.file.as_str()) || (same(a.file.as_str(), b.file.as_str())
            && a.line <= b.line)
    };
    sort_by(symbols, le, Ghost(rel));
    proof {
        let f = |s: Symbol| s@;
        let p = |s: Symbol| true;
        order::sorted_map(raw, p, f, rel, by_place());
        assert(raw.map_values(f) =~= symbol_views(raw));
        assert(symbols@.map_values(f) =~= symbol_views(symbols@));
    }
}

/// The last line of symbol `i`: the line before the next symbol of the
/// file, or the file's last; never before its own first line.
pub open spec fn last_line(symbols: Seq<SymbolView>, lens: Map<Seq<char>, usize>, i: int) -> int {
    let s = symbols[i];
    let end = if i + 1 < symbols.len() && symbols[i + 1].file == s.file {
        symbols[i + 1].line - 1
    } else if lens.dom().contains(s.file) {
        lens[s.file] as int
    } else {
        s.line
    };
    if end < s.line {
        s.line
    } else {
        end
    }
}

/// The symbols with their end lines filled in.
pub open spec fn with_ends(symbols: Seq<SymbolView>, lens: Map<Seq<char>, usize>) -> Seq<SymbolView> {
    Seq::new(
        symbols.len(),
        |i: int| SymbolView { end_line: last_line(symbols, lens, i), ..symbols[i] },
    )
}

/// Fills in `end_line` of every symbol. The symbols are sorted by file and
/// line.
pub fn compute_end_lines(symbols: &mut Vec<Symbol>, file_lines: &NameMap<usize>)
    ensures
        symbol_views(final(symbols)@) == with_ends(symbol_views(old(symbols)@), file_lines@),
{
    let n: usize = symbols.len();
    let ghost all = symbol_views(symbols@);
    let ghost raw = symbols@;
    let mut i: usize = 0;
    while i < n
        invariant
            i <= n,
            n == symbols.len(),
            n == all.len(),
            n == raw.len(),
            all == symbol_views(raw),
            forall|k: int|
                0 <= k < i ==> (#[trigger] symbols@[k])@ == (SymbolView {
                    end_line: last_line(all, file_lines@, k),
                    ..all[k]
                }),
            forall|k: int| i <= k < n ==> #[trigger] symbols@[k] == raw[k],
        decreases n - i,
    {
        let total: usize = match file_lines.get(symbols[i].file.as_str()) {
            Some(t) => *t,
            None => symbols[i].line,
        };
        let end: usize = if i + 1 < n && same(
            symbols[i + 1].file.as_str(),
            symbols[i].file.as_str(),
        ) {
            symbols[i + 1].line.saturating_sub(1)
        } else {
            total
        };
        let line: usize = symbols[i].line;
        let fixed = Symbol {
            name: symbols[i].name.clone(),
            file: symbols[i].file.clone(),
            line,
            end_line: if end < line {
                line
            } else {
                end
            },
            kind: symbols[i].kind,
            signature: match &symbols[i].signature {
                Some(s) => Some(s.clone()),
                None => None,
            },
        };
        assert(fixed@ =~= (SymbolView {
            end_line: last_line(all, file_lines@, i as int),
            ..all[i as int]
        }));
        symbols.set(i, fixed);
        i += 1;
    }
    assert(symbol_views(symbols@) =~= with_ends(all, file_lines@));
}

/// Once the end lines are filled in, no symbol ends before it begins, and
/// one that is followed by another of its file ends before that one begins,
/// unless the two begin on the same line.
pub proof fn symbols_do_not_overlap(symbols: Seq<SymbolView>, lens: Map<Seq<char>, usize>, i: int)
    requires
        order::in_order(symbols, by_place()),
        0 <= i < symbols.len(),
    ensures
        with_ends(symbols, lens)[i].end_line >= symbols[i].line,
        i + 1 < symbols.len() && symbols[i + 1].file == symbols[i].file && symbols[i].line
            < symbols[i + 1].line ==> with_ends(symbols, lens)[i].end_line < symbols[i + 1].line,
{
}

/// Nothing but the end line is filled in. A symbol reaches up to the next
/// one of its file, and the last one of a file up to the file's last line.
pub proof fn symbols_reach_the_next(symbols: Seq<SymbolView>, lens: Map<Seq<char>, usize>, i: int)
    requires
        0 <= i < symbols.len(),
    ensures
        with_ends(symbols, lens).len() == symbols.len(),
        with_ends(symbols, lens)[i].name == symbols[i].name,
        with_ends(symbols, lens)[i].file == symbols[i].file,
        with_ends(symbols, lens)[i].line == symbols[i].line,
        with_ends(symbols, lens)[i].kind == symbols[i].kind,
        with_ends(symbols, lens)[i].signature == symbols[i].signature,
        i + 1 < symbols.len() && symbols[i + 1].file == symbols[i].file && symbols[i].line
            < symbols[i + 1].line ==> with_ends(symbols, lens)[i].end_line + 1 == symbols[i + 1].line,
        (i + 1 == symbols.len() || symbols[i + 1].file != symbols[i].file) && lens.dom().contains(
            symbols[i].file,
        ) && lens[symbols[i].file] >= symbols[i].line ==> with_ends(symbols, lens)[i].end_line
            == lens[symbols[i].file],
{
}

// ── The index ────────────────────────────────────────────────────────────────

/// All the symbols of a project.
#[derive(Debug)]
pub struct SymbolIndex {
    /// Sorted by file, then by line.
    pub symbols: Vec<Symbol>,
    /// The files in which a name is defined.
    pub by_name: NameMap<Vec<String>>,
    /// The number of lines of each file.
    pub file_lines: NameMap<usize>,
}

/// The lists of a map of lists of strings.
pub open spec fn file_lists(m: Map<Seq<char>, Vec<String>>) -> Map<Seq<char>, Seq<Seq<char>>> {
    Map::new(|k: Seq<char>| m.dom().contains(k), |k: Seq<char>| text::views(m[k]@))
}

/// The list of a key, empty where there is none.
pub open spec fn list_at(m: Map<Seq<char>, Seq<Seq<char>>>, k: Seq<char>) -> Seq<Seq<char>> {
    if m.dom().contains(k) {
        m[k]
    } else {
        Seq::empty()
    }
}

/// Where each name is defined: the files of the symbols of that name, one
/// file that comes twice in a row taken once.
pub open spec fn defined_in(s: Seq<SymbolView>) -> Map<Seq<char>, Seq<Seq<char>>>
    decreases s.len(),
{
    if s.len() == 0 {
        Map::empty()
    } else {
        let m = defined_in(s.drop_last());
        let files = list_at(m, s.last().name);
        if files.len() > 0 && files.last() == s.last().file {
            m
        } else {
            m.insert(s.last().name, files.push(s.last().file))
        }
    }
}

/// A name is defined in a file if and only if some symbol of the file has
/// the name.
pub proof fn names_lead_to_their_files(s: Seq<SymbolView>, name: Seq<char>, file: Seq<char>)
    ensures
        list_at(defined_in(s), name).contains(file) <==> exists|i: int|
            0 <= i < s.len() && (#[trigger] s[i]).name == name && s[i].file == file,
        defined_in(s).dom().contains(name) <==> exists|i: int|
            0 <= i < s.len() && (#[trigger] s[i]).name == name,
    decreases s.len(),
{
    if s.len() > 0 {
        let t = s.drop_last();
        names_lead_to_their_files(t, name, file);
        let m = defined_in(t);
        let x = s.last();
        let n = s.len() - 1;
        let files = list_at(m, x.name);
        let has = |q: Seq<SymbolView>|
            exists|i: int| 0 <= i < q.len() && (#[trigger] q[i]).name == name && q[i].file == file;
        let named = |q: Seq<SymbolView>|
            exists|i: int| 0 <= i < q.len() && (#[trigger] q[i]).name == name;
        if has(t) {
            let i = choose|i: int|
                0 <= i < t.len() && (#[trigger] t[i]).name == name && t[i].file == file;
            assert(s[i] == t[i]);
        }
        if named(t) {
            let i = choose|i: int| 0 <= i < t.len() && (#[trigger] t[i]).name == name;
            assert(s[i] == t[i]);
        }
        assert(s[n] == x);
        if has(s) && !(x.name == name && x.file == file) {
            let i = choose|i: int|
                0 <= i < s.len() && (#[trigger] s[i]).name == name && s[i].file == file;
            assert(t[i] == s[i]);
        }
        if named(s) && x.name != name {
            let i = choose|i: int| 0 <= i < s.len() && (#[trigger] s[i]).name == name;
            assert(t[i] == s[i]);
        }
        if x.name == name {
            if files.len() > 0 && files.last() == x.file {
                assert(files[files.len() - 1] == x.file);
                assert(files.contains(x.file));
                assert(m.dom().contains(name));
            } else {
                let l = list_at(defined_in(s), name);
                assert(l == files.push(x.file));
                assert(l[l.len() - 1] == x.file);
                if files.contains(file) {
                    let k = choose|k: int| 0 <= k < files.len() && files[k] == file;
                    assert(l[k] == file);
                }
                if l.contains(file) && x.file != file {
                    let k = choose|k: int| 0 <= k < l.len() && l[k] == file;
                    assert(files[k] == file);
                }
            }
        }
    } else {
        assert(list_at(defined_in(s), name) =~= Seq::empty());
    }
}

/// The number of lines of each file, the last of one name counting.
pub open spec fn line_counts(files: Seq<(String, String)>) -> Map<Seq<char>, usize>
    decreases files.len(),
{
    if files.len() == 0 {
        Map::empty()
    } else {
        line_counts(files.drop_last()).insert(
            files.last().0@,
            pieces::lines(files.last().1@).len() as usize,
        )
    }
}

/// The symbols of the files, one file behind the other.
pub open spec fn all_symbols(files: Seq<(String, String)>) -> Seq<SymbolView>
    decreases files.len(),
{
    if files.len() == 0 {
        Seq::empty()
    } else {
        all_symbols(files.drop_last()) + file_symbols(files.last().1@, files.last().0@)
    }
}

/// Where each name is defined.
pub fn index_names(symbols: &Vec<Symbol>) -> (r: NameMap<Vec<String>>)
    ensures
        file_lists(r@) == defined_in(symbol_views(symbols@)),
{
    let mut m: NameMap<Vec<String>> = NameMap::new();
    let ghost sv = symbol_views(symbols@);
    let mut i: usize = 0;
    assert(sv.take(0) =~= Seq::<SymbolView>::empty());
    assert(file_lists(m@) =~= Map::<Seq<char>, Seq<Seq<char>>>::empty());
    while i < symbols.len()
        invariant
            i <= symbols.len(),
            sv == symbol_views(symbols@),
            file_lists(m@) == defined_in(sv.take(i as int)),
        decreases symbols.len() - i,
    {
        let sym = &symbols[i];
        let ghost before = m@;
        proof {
            assert(sv.take(i + 1).drop_last() =~= sv.take(i as int));
            assert(sv.take(i + 1).last() == sym@);
        }
        let ghost known = list_at(file_lists(before), sym.name@);
        let mut files = match m.remove(sym.name.as_str()) {
            Some(f) => f,
            None => Vec::new(),
        };
        assert(text::views(files@) =~= known);
        let repeated = files.len() > 0 && same(
            files[files.len() - 1].as_str(),
            sym.file.as_str(),
        );
        assert(repeated == (known.len() > 0 && known.last() == sym.file@));
        if !repeated {
            files.push(sym.file.clone());
        }
        m.insert(sym.name.clone(), files);
        assert(file_lists(m@) =~= defined_in(sv.take(i + 1)));
        i += 1;
    }
    assert(sv.take(i as int) =~= sv);
    m
}

impl SymbolIndex {
    /// The index of files given as pairs of path and content.
    pub fn build(files: &Vec<(String, String)>) -> (r: Self)
        ensures
            r.file_lines@ == line_counts(files@),
            symbol_views(r.symbols@) == with_ends(
                order::sorted_by(all_symbols(files@), by_place()),
                r.file_lines@,
            ),
            file_lists(r.by_name@) == defined_in(symbol_views(r.symbols@)),
    {
        let mut symbols: Vec<Symbol> = Vec::new();
        let mut file_lines: NameMap<usize> = NameMap::new();
        let mut i: usize = 0;
        assert(files@.take(0) =~= Seq::<(String, String)>::empty());
        assert(symbol_views(symbols@) =~= Seq::<SymbolView>::empty());
        while i < files.len()
            invariant
                i <= files.len(),
                file_lines@ == line_counts(files@.take(i as int)),
                symbol_views(symbols@) == all_symbols(files@.take(i as int)),
            decreases files.len() - i,
        {
            proof {
                assert(files@.take(i + 1).drop_last() =~= files@.take(i as int));
                assert(files@.take(i + 1).last() == files@[i as int]);
            }
            let ls = lines_of(files[i].1.as_str());
            assert(text::views(ls@).len() == ls@.len());
            file_lines.insert(files[i].0.clone(), ls.len());
            let ghost before = symbols@;
            extract_symbols(files[i].1.as_str(), files[i].0.as_str(), &mut symbols);
            proof {
                let k = before.len() as int;
                assert(symbol_views(symbols@) =~= symbol_views(symbols@.take(k)) + symbol_views(
                    symbols@.skip(k),
                ));
            }
            i += 1;
        }
        assert(files@.take(i as int) =~= files@);
        sort_symbols(&mut symbols);
        compute_end_lines(&mut symbols, &file_lines);
        let by_name = index_names(&symbols);
        SymbolIndex { symbols, by_name, file_lines }
    }
}

// ── Which files belong ───────────────────────────────────────────────────────

pub open spec fn ignored_names() -> Seq<Seq<char>> {
    seq![
        "target"@,
        "node_modules"@,
        ".git"@,
        ".next"@,
        "dist"@,
        "build"@,
        "__pycache__"@,
        ".venv"@,
        "venv"@,
        ".cache"@,
        "coverage"@,
    ]
}

pub open spec fn source_extensions() -> Seq<Seq<char>> {
    seq![
        "rs"@,
        "ts"@,
        "tsx"@,
        "js"@,
        "jsx"@,
        "py"@,
        "go"@,
        "c"@,
        "cpp"@,
        "h"@,
        "hpp"@,
    ]
}

/// Whether an entry of a directory is looked at: nothing hidden, nothing
/// generated.
pub open spec fn shown(name: Seq<char>) -> bool {
    !text::begins(name, "."@) && !ignored_names().contains(name)
}

/// Whether an entry of a directory is looked at.
pub fn visited(name: &str) -> (r: bool)
    ensures
        r == shown(name@),
{
    let ignored = [
        "target",
        "node_modules",
        ".git",
        ".next",
        "dist",
        "build",
        "__pycache__",
        ".venv",
        "venv",
        ".cache",
        "coverage",
    ];
    assert(text::texts(ignored@) =~= ignored_names());
    !begins_with(name, ".") && !one_of(name, &ignored)
}

/// Whether a file is a source file.
pub fn is_source(path: &str) -> (r: bool)
    ensures
        r == source_extensions().contains(paths::extension(path@)),
{
    let exts = ["rs", "ts", "tsx", "js", "jsx", "py", "go", "c", "cpp", "h", "hpp"];
    assert(text::texts(exts@) =~= source_extensions());
    let e = extension_of(path);
    one_of(e.as_str(), &exts)
}

/// The names and kinds of entries: whether each is a directory.
pub open spec fn entry_views(v: Seq<(String, bool)>) -> Seq<(Seq<char>, bool)> {
    Seq::new(v.len(), |i: int| (v[i].0@, v[i].1))
}

/// Those entries that are looked at: directories, and source files.
pub open spec fn looked_at(es: Seq<(Seq<char>, bool)>) -> Seq<(Seq<char>, bool)>
    decreases es.len(),
{
    if es.len() == 0 {
        es
    } else {
        let e = es.last();
        let r = looked_at(es.drop_last());
        if shown(e.0) && (e.1 || source_extensions().contains(paths::extension(e.0))) {
            r.push(e)
        } else {
            r
        }
    }
}

/// An entry is looked at if and only if it is neither hidden nor generated
/// and is a directory or has the extension of a source file. The entries
/// keep their order.
pub proof fn sources_are_looked_at(es: Seq<(Seq<char>, bool)>)
    ensures
        looked_at(es) == es.filter(
            |e: (Seq<char>, bool)|
                !(e.0.len() > 0 && e.0[0] == '.') && !seq![
                    "target"@,
                    "node_modules"@,
                    ".git"@,
                    ".next"@,
                    "dist"@,
                    "build"@,
                    "__pycache__"@,
                    ".venv"@,
                    "venv"@,
                    ".cache"@,
                    "coverage"@,
                ].contains(e.0) && (e.1 || seq![
                    "rs"@,
                    "ts"@,
                    "tsx"@,
                    "js"@,
                    "jsx"@,
                    "py"@,
                    "go"@,
                    "c"@,
                    "cpp"@,
                    "h"@,
                    "hpp"@,
                ].contains(paths::extension(e.0))),
        ),
    decreases es.len(),
{
    reveal(Seq::filter);
    reveal_strlit(".");
    if es.len() > 0 {
        sources_are_looked_at(es.drop_last());
        let n = es.last().0;
        if text::begins(n, "."@) {
            assert(n.subrange(0, 1)[0] == n[0]);
        } else if n.len() > 0 && n[0] == '.' {
            assert(n.subrange(0, 1) =~= "."@);
        }
    }
}

pub open spec fn by_name() -> spec_fn((Seq<char>, bool), (Seq<char>, bool)) -> bool {
    |a: (Seq<char>, bool), b: (Seq<char>, bool)| order::not_after(a.0, b.0)
}

/// The entries of a directory in the order in which they are looked at: the
/// directories and source files, by name.
pub fn worth_visiting(entries: Vec<(String, bool)>) -> (r: Vec<(String, bool)>)
    ensures
        entry_views(r@) == order::sorted_by(looked_at(entry_views(entries@)), by_name()),
{
    let ghost all = entry_views(entries@);
    let mut out: Vec<(String, bool)> = Vec::new();
    let mut i: usize = 0;
    assert(all.take(0) =~= Seq::<(Seq<char>, bool)>::empty());
    assert(entry_views(out@) =~= Seq::<(Seq<char>, bool)>::empty());
    while i < entries.len()
        invariant
            i <= entries.len(),
            all == entry_views(entries@),
            entry_views(out@) == looked_at(all.take(i as int)),
        decreases entries.len() - i,
    {
        let ghost before = entry_views(out@);
        assert(all.take(i + 1).drop_last() =~= all.take(i as int));
        assert(all.take(i + 1).last() == all[i as int]);
        let name = entries[i].0.as_str();
        let is_dir = entries[i].1;
        if visited(name) && (is_dir || is_source(name)) {
            out.push((name.to_owned(), is_dir));
            assert(entry_views(out@) =~= before.push(all[i as int]));
        }
        i += 1;
    }
    assert(all.take(i as int) =~= all);
    let ghost raw = out@;
    let ghost rel = |a: (String, bool), b: (String, bool)| order::not_after(a.0@, b.0@);
    let le = |a: &(String, bool), b: &(String, bool)| -> (r: bool)
        ensures r == order::not_after(a.0@, b.0@)
    {
        !comes_before(b.0.as_str(), a.0.as_str())
    };
    sort_by(&mut out, le, Ghost(rel));
    proof {
        let f = |e: (String, bool)| (e.0@, e.1);
        let p = |e: (String, bool)| true;
        order::sorted_map(raw, p, f, rel, by_name());
        assert(raw.map_values(f) =~= entry_views(raw));
        assert(out@.map_values(f) =~= entry_views(out@));
    }
    out
}

/// The symbols of files are those of each, one file behind the other, and each
/// file has as many lines as its content, the last of one path counting.
pub proof fn files_give_their_symbols(files: Seq<(String, String)>, f: (String, String))
    ensures
        all_symbols(Seq::empty()) == Seq::<SymbolView>::empty(),
        all_symbols(files.push(f)) == all_symbols(files) + file_symbols(f.1@, f.0@),
        line_counts(files.push(f)).dom().contains(f.0@),
        line_counts(files.push(f))[f.0@] == pieces::lines(f.1@).len() as usize,
        forall|p: Seq<char>|
            p != f.0@ ==> (#[trigger] line_counts(files.push(f)).dom().contains(p) == line_counts(
                files,
            ).dom().contains(p)),
{
    assert(files.push(f).drop_last() =~= files);
}

} // verus!
