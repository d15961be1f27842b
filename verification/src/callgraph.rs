//! Who calls what, and who constructs what, in Rust source files.

use crate::flowpaths;
use crate::index;
use crate::index::{CallEdge, Symbol, SymbolKind, SymbolView};
use crate::names::NameMap;
use crate::number;
use crate::number::decimal_usize;
use crate::pieces;
use crate::pieces::{before_first, join_with};
use crate::text;
use crate::text::{count, one_of, same, trimmed};
use vstd::prelude::*;

verus! {

broadcast use crate::text::views_push;

// ── Syntax trees ─────────────────────────────────────────────────────────────

/// A node of a syntax tree. The nodes of a tree stand one behind the other,
/// each before its children; `depth` tells which belong to which.
#[derive(Debug)]
pub struct SyntaxNode {
    pub kind: String,
    /// The role of the node in its parent.
    pub field: Option<String>,
    pub depth: usize,
    /// The rows, counted from 0, on which the node begins and ends.
    pub start_row: usize,
    pub end_row: usize,
    pub text: Option<String>,
}

/// What a `SyntaxNode` says.
#[verifier::ext_equal]
pub struct NodeView {
    pub kind: Seq<char>,
    pub field: Option<Seq<char>>,
    pub depth: int,
    pub start_row: int,
    pub end_row: int,
    pub text: Option<Seq<char>>,
}

impl View for SyntaxNode {
    type V = NodeView;

    open spec fn view(&self) -> NodeView {
        NodeView {
            kind: self.kind@,
            field: text::opt_text(self.field),
            depth: self.depth as int,
            start_row: self.start_row as int,
            end_row: self.end_row as int,
            text: text::opt_text(self.text),
        }
    }
}

pub open spec fn node_views(v: Seq<SyntaxNode>) -> Seq<NodeView> {
    Seq::new(v.len(), |i: int| v[i]@)
}

/// The syntax tree that `tree_sitter::Parser::parse` makes of Rust source,
/// `None` where it makes none.
pub uninterp spec fn rust_tree(source: Seq<char>) -> Option<Seq<NodeView>>;

/// tree-sitter's place in a syntax tree.
#[verifier::external_type_specification]
#[verifier::external_body]
pub struct ExTreeCursor<'a>(tree_sitter::TreeCursor<'a>);

/// The node that a `tree_sitter::TreeCursor` stands at: `Node::kind`,
/// `TreeCursor::field_name`, `TreeCursor::depth`, the rows of
/// `Node::start_position` and `Node::end_position`, and `Node::utf8_text`,
/// each as it is. Nothing is known of the result.
#[verifier::external_body]
fn syntax_node(c: &tree_sitter::TreeCursor<'_>, source: &str) -> (r: SyntaxNode) {
    SyntaxNode {
        kind: c.node().kind().to_owned(),
        field: c.field_name().map(str::to_owned),
        depth: c.depth() as usize,
        start_row: c.node().start_position().row,
        end_row: c.node().end_position().row,
        text: c.node().utf8_text(source.as_bytes()).ok().map(str::to_owned),
    }
}

/// `tree_sitter::Parser::parse` with the grammar of `tree_sitter_rust`: the
/// nodes of the tree as a `TreeCursor` comes to them, each with its kind,
/// its role, its depth, its rows and its text. The tree depends on the
/// source alone.
#[verifier::external_body]
fn parse_rust(source: &str) -> (r: Option<Vec<SyntaxNode>>)
    ensures
        match r {
            Some(v) => rust_tree(source@) == Some(node_views(v@)),
            None => rust_tree(source@) is None,
        },
{
    let mut parser = tree_sitter::Parser::new();
    parser.set_language(&tree_sitter_rust::language()).ok()?;
    let tree = parser.parse(source, None)?;
    let mut c = tree.walk();
    let mut nodes = vec![syntax_node(&c, source)];
    loop {
        let mut on = c.goto_first_child() || c.goto_next_sibling();
        while !on {
            if !c.goto_parent() { return Some(nodes); }
            on = c.goto_next_sibling();
        }
        nodes.push(syntax_node(&c, source));
    }
}

/// `tree_sitter::Parser::set_language`: whether the library takes the
/// grammar of `tree_sitter_rust`. It takes the versions 13 and 14 of the
/// form of grammars, and this grammar has the version 14.
#[verifier::external_body]
fn grammar_fits() -> (r: bool)
    ensures
        r,
{
    tree_sitter::Parser::new().set_language(&tree_sitter_rust::language()).is_ok()
}

/// The children of node `i`, from node `j` on.
pub open spec fn children(ns: Seq<NodeView>, i: int, j: int) -> Seq<int>
    decreases ns.len() - j,
{
    if j < 0 || j >= ns.len() || ns[j].depth <= ns[i].depth {
        Seq::empty()
    } else if ns[j].depth == ns[i].depth + 1 {
        seq![j] + children(ns, i, j + 1)
    } else {
        children(ns, i, j + 1)
    }
}

/// The children of node `i`.
pub open spec fn kids(ns: Seq<NodeView>, i: int) -> Seq<int> {
    children(ns, i, i + 1)
}

/// The first of the nodes that has the role.
pub open spec fn in_role(ns: Seq<NodeView>, ks: Seq<int>, role: Seq<char>) -> Option<int>
    decreases ks.len(),
{
    if ks.len() == 0 {
        None
    } else if ns[ks[0]].field == Some(role) {
        Some(ks[0])
    } else {
        in_role(ns, ks.skip(1), role)
    }
}

/// The child of node `i` that has the role.
pub open spec fn child_in_role(ns: Seq<NodeView>, i: int, role: Seq<char>) -> Option<int> {
    in_role(ns, kids(ns, i), role)
}

/// The first of the nodes that is of the kind.
pub open spec fn of_kind(ns: Seq<NodeView>, ks: Seq<int>, kind: Seq<char>) -> Option<int>
    decreases ks.len(),
{
    if ks.len() == 0 {
        None
    } else if ns[ks[0]].kind == kind {
        Some(ks[0])
    } else {
        of_kind(ns, ks.skip(1), kind)
    }
}

/// The first child of node `i` that is of the kind.
pub open spec fn child_of_kind(ns: Seq<NodeView>, i: int, kind: Seq<char>) -> Option<int> {
    of_kind(ns, kids(ns, i), kind)
}

/// The text of the child of node `i` that has the role.
pub open spec fn text_in_role(ns: Seq<NodeView>, i: int, role: Seq<char>) -> Option<Seq<char>> {
    match child_in_role(ns, i, role) {
        Some(k) => ns[k].text,
        None => None,
    }
}

/// Whether node `j` stands below node `i`.
pub open spec fn below(ns: Seq<NodeView>, i: int, j: int) -> bool {
    i < j && forall|k: int| i < k <= j ==> (#[trigger] ns[k]).depth > ns[i].depth
}

pub open spec fn indices(v: Seq<usize>) -> Seq<int> {
    Seq::new(v.len(), |i: int| v[i] as int)
}

proof fn children_bound(ns: Seq<NodeView>, i: int, j: int)
    requires
        0 <= i < j,
    ensures
        forall|k: int|
            0 <= k < children(ns, i, j).len() ==> j <= #[trigger] children(ns, i, j)[k] < ns.len(),
    decreases ns.len() - j,
{
    if j < ns.len() && ns[j].depth > ns[i].depth {
        children_bound(ns, i, j + 1);
        if ns[j].depth != ns[i].depth + 1 {
            assert(children(ns, i, j) == children(ns, i, j + 1));
            assert forall|k: int| 0 <= k < children(ns, i, j).len() implies j <= #[trigger] children(
                ns,
                i,
                j,
            )[k] < ns.len() by {
                assert(children(ns, i, j + 1)[k] == children(ns, i, j)[k]);
            }
        } else {
            let rest = children(ns, i, j + 1);
            assert forall|k: int| 0 <= k < children(ns, i, j).len() implies j <= #[trigger] children(
                ns,
                i,
                j,
            )[k] < ns.len() by {
                if k > 0 {
                    assert(children(ns, i, j)[k] == rest[k - 1]);
                }
            }
        }
    }
}

fn kids_of(nodes: &Vec<SyntaxNode>, i: usize) -> (r: Vec<usize>)
    requires
        i < nodes.len(),
    ensures
        indices(r@) == kids(node_views(nodes@), i as int),
        forall|k: int| 0 <= k < r.len() ==> i < #[trigger] r@[k] < nodes.len(),
{
    let ghost ns = node_views(nodes@);
    let ghost goal = kids(ns, i as int);
    let mut out: Vec<usize> = Vec::new();
    let mut j: usize = i + 1;
    assert(indices(out@) + children(ns, i as int, j as int) =~= goal);
    while j < nodes.len() && nodes[j].depth > nodes[i].depth
        invariant
            i < j <= nodes.len(),
            ns == node_views(nodes@),
            indices(out@) + children(ns, i as int, j as int) == goal,
            forall|k: int| 0 <= k < out.len() ==> i < #[trigger] out@[k] < nodes.len(),
        decreases nodes.len() - j,
    {
        let ghost before = indices(out@);
        if nodes[j].depth - nodes[i].depth == 1 {
            out.push(j);
            assert(indices(out@) =~= before.push(j as int));
            assert(indices(out@) + children(ns, i as int, j + 1) =~= before + children(
                ns,
                i as int,
                j as int,
            ));
        }
        j += 1;
    }
    assert(children(ns, i as int, j as int) == Seq::<int>::empty());
    assert(indices(out@) =~= goal);
    out
}

fn role_is(n: &SyntaxNode, role: &str) -> (r: bool)
    ensures
        r == (n@.field == Some(role@)),
{
    match &n.field {
        Some(f) => same(f.as_str(), role),
        None => false,
    }
}

fn find_role(nodes: &Vec<SyntaxNode>, i: usize, role: &str) -> (r: Option<usize>)
    requires
        i < nodes.len(),
    ensures
        text::opt_int(r) == child_in_role(node_views(nodes@), i as int, role@),
        r is Some ==> i < r->0 < nodes.len(),
{
    let ghost ns = node_views(nodes@);
    let ks = kids_of(nodes, i);
    let ghost kv = indices(ks@);
    let mut j: usize = 0;
    assert(kv.skip(0) =~= kv);
    while j < ks.len()
        invariant
            j <= ks.len(),
            ns == node_views(nodes@),
            kv == indices(ks@),
            kv == kids(ns, i as int),
            forall|k: int| 0 <= k < ks.len() ==> i < #[trigger] ks@[k] < nodes.len(),
            in_role(ns, kv, role@) == in_role(ns, kv.skip(j as int), role@),
        decreases ks.len() - j,
    {
        assert(kv.skip(j as int)[0] == ks@[j as int]);
        assert(ns[ks@[j as int] as int] == nodes@[ks@[j as int] as int]@);
        if role_is(&nodes[ks[j]], role) {
            return Some(ks[j]);
        }
        assert(kv.skip(j as int).skip(1) =~= kv.skip(j + 1));
        j += 1;
    }
    None
}

fn find_child_kind(nodes: &Vec<SyntaxNode>, i: usize, kind: &str) -> (r: Option<usize>)
    requires
        i < nodes.len(),
    ensures
        text::opt_int(r) == child_of_kind(node_views(nodes@), i as int, kind@),
        r is Some ==> i < r->0 < nodes.len(),
{
    let ghost ns = node_views(nodes@);
    let ks = kids_of(nodes, i);
    let ghost kv = indices(ks@);
    let mut j: usize = 0;
    assert(kv.skip(0) =~= kv);
    while j < ks.len()
        invariant
            j <= ks.len(),
            ns == node_views(nodes@),
            kv == indices(ks@),
            kv == kids(ns, i as int),
            forall|k: int| 0 <= k < ks.len() ==> i < #[trigger] ks@[k] < nodes.len(),
            of_kind(ns, kv, kind@) == of_kind(ns, kv.skip(j as int), kind@),
        decreases ks.len() - j,
    {
        assert(kv.skip(j as int)[0] == ks@[j as int]);
        assert(ns[ks@[j as int] as int] == nodes@[ks@[j as int] as int]@);
        if same(nodes[ks[j]].kind.as_str(), kind) {
            return Some(ks[j]);
        }
        assert(kv.skip(j as int).skip(1) =~= kv.skip(j + 1));
        j += 1;
    }
    None
}

fn clone_text(o: &Option<String>) -> (r: Option<String>)
    ensures
        text::opt_text(r) == text::opt_text(*o),
{
    match o {
        Some(s) => Some(s.clone()),
        None => None,
    }
}

fn role_text(nodes: &Vec<SyntaxNode>, i: usize, role: &str) -> (r: Option<String>)
    requires
        i < nodes.len(),
    ensures
        text::opt_text(r) == text_in_role(node_views(nodes@), i as int, role@),
{
    match find_role(nodes, i, role) {
        Some(k) => {
            assert(node_views(nodes@)[k as int] == nodes@[k as int]@);
            clone_text(&nodes[k].text)
        },
        None => None,
    }
}

// ── Calls ────────────────────────────────────────────────────────────────────

/// The name that a called expression has: of a path its last segment, of a
/// field its name; type arguments do not count.
pub open spec fn called(ns: Seq<NodeView>, i: int) -> Option<Seq<char>>
    decreases ns.len() - i,
    via called_ends
{
    if i < 0 || i >= ns.len() {
        None
    } else if ns[i].kind == "identifier"@ {
        ns[i].text
    } else if ns[i].kind == "scoped_identifier"@ {
        text_in_role(ns, i, "name"@)
    } else if ns[i].kind == "field_expression"@ {
        text_in_role(ns, i, "field"@)
    } else if ns[i].kind == "generic_function"@ {
        match child_in_role(ns, i, "function"@) {
            Some(k) => called(ns, k),
            None => None,
        }
    } else {
        None
    }
}

proof fn in_role_bound(ns: Seq<NodeView>, ks: Seq<int>, role: Seq<char>)
    ensures
        in_role(ns, ks, role) matches Some(k) ==> ks.contains(k),
    decreases ks.len(),
{
    if ks.len() > 0 {
        if ns[ks[0]].field == Some(role) {
            assert(ks[0] == in_role(ns, ks, role)->0);
        } else {
            in_role_bound(ns, ks.skip(1), role);
            if let Some(k) = in_role(ns, ks, role) {
                let j = choose|j: int| 0 <= j < ks.skip(1).len() && ks.skip(1)[j] == k;
                assert(ks[j + 1] == k);
            }
        }
    }
}

#[via_fn]
proof fn called_ends(ns: Seq<NodeView>, i: int) {
    if 0 <= i < ns.len() {
        children_bound(ns, i, i + 1);
        in_role_bound(ns, kids(ns, i), "function"@);
    }
}

/// The name of a called expression.
pub fn callee_name(nodes: &Vec<SyntaxNode>, i: usize) -> (r: Option<String>)
    requires
        i < nodes.len(),
    ensures
        text::opt_text(r) == called(node_views(nodes@), i as int),
    decreases nodes.len() - i,
{
    assert(node_views(nodes@)[i as int] == nodes@[i as int]@);
    let kind = nodes[i].kind.as_str();
    if same(kind, "identifier") {
        clone_text(&nodes[i].text)
    } else if same(kind, "scoped_identifier") {
        role_text(nodes, i, "name")
    } else if same(kind, "field_expression") {
        role_text(nodes, i, "field")
    } else if same(kind, "generic_function") {
        match find_role(nodes, i, "function") {
            Some(k) => callee_name(nodes, k),
            None => None,
        }
    } else {
        None
    }
}

/// The call that a node is: its line and what it calls.
pub open spec fn call_at(ns: Seq<NodeView>, i: int) -> Option<(int, Seq<char>)> {
    let name = if ns[i].kind == "call_expression"@ {
        match child_in_role(ns, i, "function"@) {
            Some(f) => called(ns, f),
            None => None,
        }
    } else if ns[i].kind == "method_call_expression"@ {
        match text_in_role(ns, i, "name"@) {
            Some(t) => if t.len() > 0 {
                Some(t)
            } else {
                None
            },
            None => None,
        }
    } else {
        None
    };
    match name {
        Some(n) => Some((line_of(ns[i].start_row), n)),
        None => None,
    }
}

/// The calls among the first `n` nodes.
pub open spec fn calls_upto(ns: Seq<NodeView>, n: int) -> Seq<(int, Seq<char>)>
    decreases n,
{
    if n <= 0 {
        Seq::empty()
    } else {
        match call_at(ns, n - 1) {
            Some(c) => calls_upto(ns, n - 1).push(c),
            None => calls_upto(ns, n - 1),
        }
    }
}

pub open spec fn site(s: (usize, String)) -> (int, Seq<char>) {
    (s.0 as int, s.1@)
}

pub open spec fn sites(v: Seq<(usize, String)>) -> Seq<(int, Seq<char>)> {
    Seq::new(v.len(), |i: int| site(v[i]))
}

/// The line of a row, counted from 1.
pub open spec fn line_of(row: int) -> int {
    if row < usize::MAX {
        row + 1
    } else {
        usize::MAX as int
    }
}

fn name_of_call(nodes: &Vec<SyntaxNode>, i: usize) -> (r: Option<String>)
    requires
        i < nodes.len(),
    ensures
        match call_at(node_views(nodes@), i as int) {
            Some(c) => r is Some && r->0@ == c.1,
            None => r is None,
        },
{
    assert(node_views(nodes@)[i as int] == nodes@[i as int]@);
    let kind = nodes[i].kind.as_str();
    if same(kind, "call_expression") {
        match find_role(nodes, i, "function") {
            Some(f) => callee_name(nodes, f),
            None => None,
        }
    } else if same(kind, "method_call_expression") {
        match role_text(nodes, i, "name") {
            Some(t) => if t.as_str().is_empty() {
                None
            } else {
                Some(t)
            },
            None => None,
        }
    } else {
        None
    }
}

/// All calls of a tree, in the order of the source.
pub fn collect_calls(nodes: &Vec<SyntaxNode>) -> (r: Vec<(usize, String)>)
    ensures
        sites(r@) == calls_upto(node_views(nodes@), nodes@.len() as int),
{
    let ghost ns = node_views(nodes@);
    let mut out: Vec<(usize, String)> = Vec::new();
    let mut i: usize = 0;
    assert(sites(out@) =~= Seq::<(int, Seq<char>)>::empty());
    while i < nodes.len()
        invariant
            i <= nodes.len(),
            ns == node_views(nodes@),
            sites(out@) == calls_upto(ns, i as int),
        decreases nodes.len() - i,
    {
        assert(ns[i as int] == nodes@[i as int]@);
        match name_of_call(nodes, i) {
            Some(name) => {
                let ghost before = sites(out@);
                out.push((nodes[i].start_row.saturating_add(1), name));
                assert(sites(out@) =~= before.push(call_at(ns, i as int)->0));
            },
            None => {},
        }
        i += 1;
    }
    out
}

// ── Constructions ────────────────────────────────────────────────────────────

/// The type of an `impl` without its parameters.
pub open spec fn impl_base(ns: Seq<NodeView>, i: int) -> Option<Seq<char>> {
    if ns[i].kind == "impl_item"@ {
        match text_in_role(ns, i, "type"@) {
            Some(t) => {
                let base = text::trim(pieces::before_text(t, "<"@));
                if base.len() > 0 {
                    Some(base)
                } else {
                    None
                }
            },
            None => None,
        }
    } else {
        None
    }
}

/// The innermost `impl` that node `i` stands in, among the first `n` nodes.
pub open spec fn enclosing_impl(ns: Seq<NodeView>, i: int, n: int) -> Option<int>
    decreases n,
{
    if n <= 0 {
        None
    } else if ns[n - 1].kind == "impl_item"@ && below(ns, n - 1, i) {
        Some(n - 1)
    } else {
        enclosing_impl(ns, i, n - 1)
    }
}

/// A node stands in the `impl` that is found for it, and that one in every
/// other that the node stands in. Where none is found, it stands in none.
pub proof fn enclosing_is_innermost(ns: Seq<NodeView>, i: int, n: int)
    ensures
        match enclosing_impl(ns, i, n) {
            Some(b) => ns[b].kind == "impl_item"@ && below(ns, b, i) && forall|c: int|
                0 <= c < n && (#[trigger] ns[c]).kind == "impl_item"@ && below(ns, c, i) ==> c == b
                    || below(ns, c, b),
            None => forall|c: int|
                0 <= c < n ==> !((#[trigger] ns[c]).kind == "impl_item"@ && below(ns, c, i)),
        },
    decreases n,
{
    if n > 0 && !(ns[n - 1].kind == "impl_item"@ && below(ns, n - 1, i)) {
        enclosing_is_innermost(ns, i, n - 1);
    }
}

/// What a struct expression constructs: a path as it stands, `Self` as the
/// type of its `impl`, a plain name if it is known.
pub open spec fn constructed_by(
    ns: Seq<NodeView>,
    i: int,
    known: Set<Seq<char>>,
) -> Option<Seq<char>> {
    match child_in_role(ns, i, "name"@) {
        Some(k) => if ns[k].kind == "scoped_type_identifier"@ {
            ns[k].text
        } else if ns[k].kind == "type_identifier"@ {
            match ns[k].text {
                Some(t) => if t == "Self"@ {
                    match enclosing_impl(ns, i, i) {
                        Some(b) => impl_base(ns, b),
                        None => None,
                    }
                } else if known.contains(t) {
                    Some(t)
                } else {
                    None
                },
                None => None,
            }
        } else {
            None
        },
        None => None,
    }
}

pub open spec fn constructors() -> Seq<Seq<char>> {
    seq!["new"@, "default"@, "build"@]
}

/// The known type that a call like `Type::new()` constructs.
pub open spec fn made_by_call(ns: Seq<NodeView>, i: int, known: Set<Seq<char>>) -> Option<Seq<char>> {
    match child_in_role(ns, i, "function"@) {
        Some(f) => if ns[f].kind == "scoped_identifier"@ {
            match (text_in_role(ns, f, "path"@), text_in_role(ns, f, "name"@)) {
                (Some(t), Some(m)) => if constructors().contains(m) && known.contains(t) {
                    Some(t)
                } else {
                    None
                },
                _ => None,
            }
        } else {
            None
        },
        None => None,
    }
}

/// What a node constructs.
pub open spec fn made_at(ns: Seq<NodeView>, i: int, known: Set<Seq<char>>) -> Option<(int, Seq<char>)> {
    let name = if ns[i].kind == "struct_expression"@ {
        constructed_by(ns, i, known)
    } else if ns[i].kind == "call_expression"@ {
        made_by_call(ns, i, known)
    } else {
        None
    };
    match name {
        Some(n) => Some((line_of(ns[i].start_row), n)),
        None => None,
    }
}

pub open spec fn made_upto(ns: Seq<NodeView>, known: Set<Seq<char>>, n: int) -> Seq<(int, Seq<char>)>
    decreases n,
{
    if n <= 0 {
        Seq::empty()
    } else {
        match made_at(ns, n - 1, known) {
            Some(c) => made_upto(ns, known, n - 1).push(c),
            None => made_upto(ns, known, n - 1),
        }
    }
}

fn is_below(nodes: &Vec<SyntaxNode>, i: usize, j: usize) -> (r: bool)
    requires
        i < j < nodes.len(),
    ensures
        r == below(node_views(nodes@), i as int, j as int),
{
    let ghost ns = node_views(nodes@);
    let mut k: usize = i + 1;
    while k <= j
        invariant
            i < k <= j + 1,
            j < nodes.len(),
            ns == node_views(nodes@),
            forall|x: int| i < x < k ==> (#[trigger] ns[x]).depth > ns[i as int].depth,
        decreases j + 1 - k,
    {
        assert(ns[k as int] == nodes@[k as int]@);
        if nodes[k].depth <= nodes[i].depth {
            assert(!(ns[k as int].depth > ns[i as int].depth));
            return false;
        }
        k += 1;
    }
    true
}

fn base_of_impl(nodes: &Vec<SyntaxNode>, i: usize) -> (r: Option<String>)
    requires
        i < nodes.len(),
    ensures
        text::opt_text(r) == impl_base(node_views(nodes@), i as int),
{
    assert(node_views(nodes@)[i as int] == nodes@[i as int]@);
    if !same(nodes[i].kind.as_str(), "impl_item") {
        return None;
    }
    match role_text(nodes, i, "type") {
        Some(t) => {
            let b = before_first(t.as_str(), "<");
            let b = trimmed(b.as_str());
            if b.as_str().is_empty() {
                None
            } else {
                Some(b)
            }
        },
        None => None,
    }
}

fn find_impl(nodes: &Vec<SyntaxNode>, i: usize) -> (r: Option<usize>)
    requires
        i < nodes.len(),
    ensures
        text::opt_int(r) == enclosing_impl(node_views(nodes@), i as int, i as int),
        r is Some ==> r->0 < nodes.len(),
{
    let ghost ns = node_views(nodes@);
    let mut n: usize = i;
    while n > 0
        invariant
            n <= i < nodes.len(),
            ns == node_views(nodes@),
            enclosing_impl(ns, i as int, i as int) == enclosing_impl(ns, i as int, n as int),
        decreases n,
    {
        n -= 1;
        assert(ns[n as int] == nodes@[n as int]@);
        if same(nodes[n].kind.as_str(), "impl_item") && is_below(nodes, n, i) {
            return Some(n);
        }
    }
    None
}

fn name_constructed(
    nodes: &Vec<SyntaxNode>,
    i: usize,
    known_names: &NameMap<Vec<String>>,
) -> (r: Option<String>)
    requires
        i < nodes.len(),
    ensures
        match made_at(node_views(nodes@), i as int, known_names@.dom()) {
            Some(c) => r is Some && r->0@ == c.1,
            None => r is None,
        },
{
    let ghost ns = node_views(nodes@);
    assert(ns[i as int] == nodes@[i as int]@);
    let kind = nodes[i].kind.as_str();
    if same(kind, "struct_expression") {
        match find_role(nodes, i, "name") {
            Some(k) => {
                assert(ns[k as int] == nodes@[k as int]@);
                let nk = nodes[k].kind.as_str();
                if same(nk, "scoped_type_identifier") {
                    clone_text(&nodes[k].text)
                } else if same(nk, "type_identifier") {
                    match &nodes[k].text {
                        Some(t) => {
                            if same(t.as_str(), "Self") {
                                match find_impl(nodes, i) {
                                    Some(b) => base_of_impl(nodes, b),
                                    None => None,
                                }
                            } else if known_names.contains(t.as_str()) {
                                Some(t.clone())
                            } else {
                                None
                            }
                        },
                        None => None,
                    }
                } else {
                    None
                }
            },
            None => None,
        }
    } else if same(kind, "call_expression") {
        match find_role(nodes, i, "function") {
            Some(f) => {
                assert(ns[f as int] == nodes@[f as int]@);
                if same(nodes[f].kind.as_str(), "scoped_identifier") {
                    match (role_text(nodes, f, "path"), role_text(nodes, f, "name")) {
                        (Some(t), Some(m)) => {
                            let makers = ["new", "default", "build"];
                            assert(text::texts(makers@) =~= constructors());
                            if one_of(m.as_str(), &makers) && known_names.contains(t.as_str()) {
                                Some(t)
                            } else {
                                None
                            }
                        },
                        _ => None,
                    }
                } else {
                    None
                }
            },
            None => None,
        }
    } else {
        None
    }
}

/// All constructions of a tree, in the order of the source.
pub fn collect_struct_constructions(
    nodes: &Vec<SyntaxNode>,
    known_names: &NameMap<Vec<String>>,
) -> (r: Vec<(usize, String)>)
    ensures
        sites(r@) == made_upto(node_views(nodes@), known_names@.dom(), nodes@.len() as int),
{
    let ghost ns = node_views(nodes@);
    let mut out: Vec<(usize, String)> = Vec::new();
    let mut i: usize = 0;
    assert(sites(out@) =~= Seq::<(int, Seq<char>)>::empty());
    while i < nodes.len()
        invariant
            i <= nodes.len(),
            ns == node_views(nodes@),
            sites(out@) == made_upto(ns, known_names@.dom(), i as int),
        decreases nodes.len() - i,
    {
        assert(ns[i as int] == nodes@[i as int]@);
        match name_constructed(nodes, i, known_names) {
            Some(name) => {
                let ghost before = sites(out@);
                out.push((nodes[i].start_row.saturating_add(1), name));
                assert(sites(out@) =~= before.push(made_at(ns, i as int, known_names@.dom())->0));
            },
            None => {},
        }
        i += 1;
    }
    out
}


// ── Edges ────────────────────────────────────────────────────────────────────

/// The symbol that spans a line, among those given: the one that begins
/// last; of several that begin together the last.
pub open spec fn containing(syms: Seq<SymbolView>, line: int) -> Option<SymbolView>
    decreases syms.len(),
{
    if syms.len() == 0 {
        None
    } else {
        let best = containing(syms.drop_last(), line);
        let s = syms.last();
        if s.line <= line <= s.end_line {
            match best {
                Some(b) => if b.line <= s.line {
                    Some(s)
                } else {
                    Some(b)
                },
                None => Some(s),
            }
        } else {
            best
        }
    }
}

pub open spec fn ref_views(v: Seq<&Symbol>) -> Seq<SymbolView> {
    Seq::new(v.len(), |i: int| v[i]@)
}

/// The innermost symbol that spans a line.
pub fn find_containing_symbol<'a>(file_syms: &Vec<&'a Symbol>, call_line: usize) -> (r: Option<
    &'a Symbol,
>)
    ensures
        match r {
            Some(s) => containing(ref_views(file_syms@), call_line as int) == Some(s@),
            None => containing(ref_views(file_syms@), call_line as int) is None,
        },
{
    let ghost sv = ref_views(file_syms@);
    let mut best: Option<&'a Symbol> = None;
    let mut i: usize = 0;
    assert(sv.take(0) =~= Seq::<SymbolView>::empty());
    while i < file_syms.len()
        invariant
            i <= file_syms.len(),
            sv == ref_views(file_syms@),
            match best {
                Some(s) => containing(sv.take(i as int), call_line as int) == Some(s@),
                None => containing(sv.take(i as int), call_line as int) is None,
            },
        decreases file_syms.len() - i,
    {
        let s: &'a Symbol = file_syms[i];
        assert(sv.take(i + 1).drop_last() =~= sv.take(i as int));
        assert(sv.take(i + 1).last() == s@);
        if s.line <= call_line && call_line <= s.end_line {
            best = match best {
                Some(b) => if b.line <= s.line {
                    Some(s)
                } else {
                    Some(b)
                },
                None => Some(s),
            };
        }
        i += 1;
    }
    assert(sv.take(i as int) =~= sv);
    best
}

/// A symbol that spans a line is found where there is one, and no other
/// that spans it begins later.
pub proof fn containing_is_innermost(syms: Seq<SymbolView>, line: int)
    ensures
        match containing(syms, line) {
            Some(s) => syms.contains(s) && s.line <= line <= s.end_line && forall|i: int|
                0 <= i < syms.len() && (#[trigger] syms[i]).line <= line <= syms[i].end_line
                    ==> syms[i].line <= s.line,
            None => forall|i: int|
                0 <= i < syms.len() ==> !((#[trigger] syms[i]).line <= line <= syms[i].end_line),
        },
    decreases syms.len(),
{
    if syms.len() > 0 {
        let t = syms.drop_last();
        containing_is_innermost(t, line);
        assert(forall|i: int| 0 <= i < t.len() ==> #[trigger] syms[i] == t[i]);
        if let Some(s) = containing(syms, line) {
            if t.contains(s) {
                let k = choose|k: int| 0 <= k < t.len() && t[k] == s;
                assert(syms[k] == s);
            } else {
                assert(syms[syms.len() - 1] == s);
            }
        }
    }
}

/// What a `CallEdge` says.
#[verifier::ext_equal]
pub struct EdgeView {
    pub callee: Seq<char>,
    pub call_line: int,
}

impl View for CallEdge {
    type V = EdgeView;

    open spec fn view(&self) -> EdgeView {
        EdgeView { callee: self.callee@, call_line: self.call_line as int }
    }
}

pub open spec fn edge_views(v: Seq<CallEdge>) -> Seq<EdgeView> {
    Seq::new(v.len(), |i: int| v[i]@)
}

pub open spec fn edge_lists(m: Map<Seq<char>, Vec<CallEdge>>) -> Map<Seq<char>, Seq<EdgeView>> {
    Map::new(|k: Seq<char>| m.dom().contains(k), |k: Seq<char>| edge_views(m[k]@))
}

pub open spec fn edges_at(m: Map<Seq<char>, Seq<EdgeView>>, k: Seq<char>) -> Seq<EdgeView> {
    if m.dom().contains(k) {
        m[k]
    } else {
        Seq::empty()
    }
}

pub open spec fn reaches(es: Seq<EdgeView>, callee: Seq<char>) -> bool {
    exists|i: int| 0 <= i < es.len() && (#[trigger] es[i]).callee == callee
}

/// The edges of a caller with one more: only the first to a callee counts.
pub open spec fn with_edge(
    m: Map<Seq<char>, Seq<EdgeView>>,
    key: Seq<char>,
    e: EdgeView,
) -> Map<Seq<char>, Seq<EdgeView>> {
    let es = edges_at(m, key);
    m.insert(
        key,
        if reaches(es, e.callee) {
            es
        } else {
            es.push(e)
        },
    )
}

/// The symbols of a file.
pub open spec fn in_file(syms: Seq<SymbolView>, file: Seq<char>) -> Seq<SymbolView>
    decreases syms.len(),
{
    if syms.len() == 0 {
        Seq::empty()
    } else if syms.last().file == file {
        in_file(syms.drop_last(), file).push(syms.last())
    } else {
        in_file(syms.drop_last(), file)
    }
}

/// The edges that calls make: to known names, from the symbol around the
/// call, not from a symbol to itself.
pub open spec fn call_edges(
    calls: Seq<(int, Seq<char>)>,
    file: Seq<char>,
    syms: Seq<SymbolView>,
    known: Set<Seq<char>>,
) -> Map<Seq<char>, Seq<EdgeView>>
    decreases calls.len(),
{
    if calls.len() == 0 {
        Map::empty()
    } else {
        let m = call_edges(calls.drop_last(), file, syms, known);
        let (line, callee) = calls.last();
        match containing(syms, line) {
            Some(s) => if known.contains(callee) && s.name != callee {
                with_edge(
                    m,
                    flowpaths::key_of(file, s.name),
                    EdgeView { callee, call_line: line },
                )
            } else {
                m
            },
            None => m,
        }
    }
}

/// The edges that constructions make: from the symbol around one, not from
/// a type to itself.
pub open spec fn made_edges(
    made: Seq<(int, Seq<char>)>,
    file: Seq<char>,
    syms: Seq<SymbolView>,
) -> Map<Seq<char>, Seq<EdgeView>>
    decreases made.len(),
{
    if made.len() == 0 {
        Map::empty()
    } else {
        let m = made_edges(made.drop_last(), file, syms);
        let (line, callee) = made.last();
        match containing(syms, line) {
            Some(s) => if s.name != pieces::before_text(callee, "::"@) {
                with_edge(
                    m,
                    flowpaths::key_of(file, s.name),
                    EdgeView { callee, call_line: line },
                )
            } else {
                m
            },
            None => m,
        }
    }
}

fn symbols_in<'a>(symbols: &'a Vec<Symbol>, file: &str) -> (r: Vec<&'a Symbol>)
    ensures
        ref_views(r@) == in_file(index::symbol_views(symbols@), file@),
{
    let ghost sv = index::symbol_views(symbols@);
    let mut out: Vec<&'a Symbol> = Vec::new();
    let mut i: usize = 0;
    assert(sv.take(0) =~= Seq::<SymbolView>::empty());
    assert(ref_views(out@) =~= Seq::<SymbolView>::empty());
    while i < symbols.len()
        invariant
            i <= symbols.len(),
            sv == index::symbol_views(symbols@),
            ref_views(out@) == in_file(sv.take(i as int), file@),
        decreases symbols.len() - i,
    {
        assert(sv.take(i + 1).drop_last() =~= sv.take(i as int));
        assert(sv.take(i + 1).last() == symbols@[i as int]@);
        if same(symbols[i].file.as_str(), file) {
            let ghost before = ref_views(out@);
            out.push(&symbols[i]);
            assert(ref_views(out@) =~= before.push(symbols@[i as int]@));
        }
        i += 1;
    }
    assert(sv.take(i as int) =~= sv);
    out
}

fn edge_to(es: &Vec<CallEdge>, callee: &str) -> (r: bool)
    ensures
        r == reaches(edge_views(es@), callee@),
{
    let ghost ev = edge_views(es@);
    let mut i: usize = 0;
    while i < es.len()
        invariant
            i <= es.len(),
            ev == edge_views(es@),
            forall|k: int| 0 <= k < i ==> (#[trigger] ev[k]).callee != callee@,
        decreases es.len() - i,
    {
        assert(ev[i as int] == es@[i as int]@);
        if same(es[i].callee.as_str(), callee) {
            return true;
        }
        i += 1;
    }
    false
}

fn add_edge(m: &mut NameMap<Vec<CallEdge>>, key: String, callee: String, call_line: usize)
    ensures
        edge_lists(final(m)@) == with_edge(
            edge_lists(old(m)@),
            key@,
            EdgeView { callee: callee@, call_line: call_line as int },
        ),
{
    let ghost before = edge_lists(m@);
    let ghost e = EdgeView { callee: callee@, call_line: call_line as int };
    let mut es = match m.remove(key.as_str()) {
        Some(v) => v,
        None => Vec::new(),
    };
    let ghost had = edge_views(es@);
    assert(had =~= edges_at(before, key@));
    if !edge_to(&es, callee.as_str()) {
        es.push(CallEdge { callee, call_line });
        assert(edge_views(es@) =~= had.push(e));
    }
    m.insert(key, es);
    assert(edge_lists(m@) =~= with_edge(before, key@, e));
}

/// The edges of calls.
pub fn edges_of_calls(
    calls: &Vec<(usize, String)>,
    file: &str,
    symbols: &Vec<Symbol>,
    known_names: &NameMap<Vec<String>>,
) -> (r: NameMap<Vec<CallEdge>>)
    ensures
        edge_lists(r@) == call_edges(
            sites(calls@),
            file@,
            in_file(index::symbol_views(symbols@), file@),
            known_names@.dom(),
        ),
{
    let file_syms = symbols_in(symbols, file);
    let ghost syms = in_file(index::symbol_views(symbols@), file@);
    let ghost cs = sites(calls@);
    let mut m: NameMap<Vec<CallEdge>> = NameMap::new();
    let mut i: usize = 0;
    assert(cs.take(0) =~= Seq::<(int, Seq<char>)>::empty());
    assert(edge_lists(m@) =~= Map::<Seq<char>, Seq<EdgeView>>::empty());
    while i < calls.len()
        invariant
            i <= calls.len(),
            cs == sites(calls@),
            syms == ref_views(file_syms@),
            edge_lists(m@) == call_edges(cs.take(i as int), file@, syms, known_names@.dom()),
        decreases calls.len() - i,
    {
        proof {
            assert(cs.take(i + 1).drop_last() =~= cs.take(i as int));
            assert(cs.take(i + 1).last() == site(calls@[i as int]));
        }
        let callee = calls[i].1.as_str();
        if known_names.contains(callee) {
            match find_containing_symbol(&file_syms, calls[i].0) {
                Some(s) => {
                    if !same(s.name.as_str(), callee) {
                        let key = flowpaths::make_key(file, s.name.as_str());
                        add_edge(&mut m, key, calls[i].1.clone(), calls[i].0);
                    }
                },
                None => {},
            }
        }
        i += 1;
    }
    assert(cs.take(i as int) =~= cs);
    m
}

/// The edges of constructions.
pub fn edges_of_constructions(made: &Vec<(usize, String)>, file: &str, symbols: &Vec<Symbol>) -> (r:
    NameMap<Vec<CallEdge>>)
    ensures
        edge_lists(r@) == made_edges(
            sites(made@),
            file@,
            in_file(index::symbol_views(symbols@), file@),
        ),
{
    let file_syms = symbols_in(symbols, file);
    let ghost syms = in_file(index::symbol_views(symbols@), file@);
    let ghost cs = sites(made@);
    let mut m: NameMap<Vec<CallEdge>> = NameMap::new();
    let mut i: usize = 0;
    assert(cs.take(0) =~= Seq::<(int, Seq<char>)>::empty());
    assert(edge_lists(m@) =~= Map::<Seq<char>, Seq<EdgeView>>::empty());
    while i < made.len()
        invariant
            i <= made.len(),
            cs == sites(made@),
            syms == ref_views(file_syms@),
            edge_lists(m@) == made_edges(cs.take(i as int), file@, syms),
        decreases made.len() - i,
    {
        proof {
            assert(cs.take(i + 1).drop_last() =~= cs.take(i as int));
            assert(cs.take(i + 1).last() == site(made@[i as int]));
        }
        match find_containing_symbol(&file_syms, made[i].0) {
            Some(s) => {
                let base = before_first(made[i].1.as_str(), "::");
                if !same(s.name.as_str(), base.as_str()) {
                    let key = flowpaths::make_key(file, s.name.as_str());
                    add_edge(&mut m, key, made[i].1.clone(), made[i].0);
                }
            },
            None => {},
        }
        i += 1;
    }
    assert(cs.take(i as int) =~= cs);
    m
}

// ── Signatures of types ──────────────────────────────────────────────────────

/// How many of the items fit, the closing note counted in, when `len`
/// characters are used and `n` items stand.
pub open spec fn fitting_items(items: Seq<Seq<char>>, max: int, n: int, len: int) -> int
    decreases items.len() - n,
{
    if n < 0 || n >= items.len() {
        n
    } else {
        let add = items[n].len() + if n == 0 {
            0int
        } else {
            2
        };
        if len + add + 18 > max {
            n
        } else {
            fitting_items(items, max, n + 1, len + add)
        }
    }
}

/// Items in braces, as many as fit.
pub open spec fn compact(items: Seq<Seq<char>>, max: int) -> Seq<char> {
    let full = "{ "@ + pieces::join(items, ", "@) + " }"@;
    if items.len() == 0 {
        "{}"@
    } else if full.len() <= max {
        full
    } else {
        let n = fitting_items(items, max, 0, 4);
        "{ "@ + pieces::join(items.take(n), ", "@) + ", ... (+"@ + number::decimal(
            (items.len() - n) as nat,
        ) + " more) }"@
    }
}

/// Items in braces, cut where they pass `max_chars` characters.
pub fn format_compact(items: &Vec<String>, max_chars: usize) -> (r: String)
    ensures
        r@ == compact(text::views(items@), max_chars as int),
{
    let ghost iv = text::views(items@);
    assert(iv.len() == items@.len());
    if items.len() == 0 {
        return "{}".to_owned();
    }
    let mut full = "{ ".to_owned();
    full.append(join_with(items, ", ").as_str());
    full.append(" }");
    if count(full.as_str()) <= max_chars {
        return full;
    }
    let mut parts: Vec<String> = Vec::new();
    let mut len: u128 = 4;
    let mut i: usize = 0;
    let mut done: bool = false;
    let ghost goal = fitting_items(iv, max_chars as int, 0, 4);
    while i < items.len() && !done
        invariant
            i <= items.len(),
            iv == text::views(items@),
            parts.len() == i,
            len <= 4 || len <= max_chars,
            forall|k: int| 0 <= k < i ==> (#[trigger] parts@[k])@ == iv[k],
            done ==> goal == i,
            !done ==> goal == fitting_items(iv, max_chars as int, i as int, len as int),
        decreases items.len() - i + if done {
            0int
        } else {
            1
        },
    {
        assert(iv[i as int] == items@[i as int]@);
        let w: usize = count(items[i].as_str());
        let add: u128 = if i == 0 {
            w as u128
        } else {
            2 + w as u128
        };
        if len + add + 18 > max_chars as u128 {
            done = true;
        } else {
            parts.push(items[i].clone());
            len = len + add;
            i += 1;
        }
    }
    assert(goal == i);
    assert(text::views(parts@) =~= iv.take(i as int));
    let mut out = "{ ".to_owned();
    out.append(join_with(&parts, ", ").as_str());
    out.append(", ... (+");
    out.append(decimal_usize(items.len() - i).as_str());
    out.append(" more) }");
    out
}

pub open spec fn or_mark(o: Option<Seq<char>>) -> Seq<char> {
    match o {
        Some(t) => t,
        None => "?"@,
    }
}

/// The fields among the nodes, each with its type.
pub open spec fn struct_fields(ns: Seq<NodeView>, ks: Seq<int>) -> Seq<Seq<char>>
    decreases ks.len(),
{
    if ks.len() == 0 {
        Seq::empty()
    } else {
        let k = ks.last();
        let rest = struct_fields(ns, ks.drop_last());
        if ns[k].kind == "field_declaration"@ {
            rest.push(
                or_mark(text_in_role(ns, k, "name"@)) + ": "@ + or_mark(
                    text_in_role(ns, k, "type"@),
                ),
            )
        } else {
            rest
        }
    }
}

/// The fields of a variant that have both a name and a type.
pub open spec fn variant_fields(ns: Seq<NodeView>, ks: Seq<int>) -> Seq<Seq<char>>
    decreases ks.len(),
{
    if ks.len() == 0 {
        Seq::empty()
    } else {
        let k = ks.last();
        let rest = variant_fields(ns, ks.drop_last());
        if ns[k].kind == "field_declaration"@ {
            match (text_in_role(ns, k, "name"@), text_in_role(ns, k, "type"@)) {
                (Some(n), Some(t)) => rest.push(n + ": "@ + t),
                _ => rest,
            }
        } else {
            rest
        }
    }
}

pub open spec fn punctuation() -> Seq<Seq<char>> {
    seq!["("@, ")"@, ","@, "visibility_modifier"@]
}

/// The types of a variant like a tuple.
pub open spec fn tuple_types(ns: Seq<NodeView>, ks: Seq<int>) -> Seq<Seq<char>>
    decreases ks.len(),
{
    if ks.len() == 0 {
        Seq::empty()
    } else {
        let k = ks.last();
        let rest = tuple_types(ns, ks.drop_last());
        if punctuation().contains(ns[k].kind) {
            rest
        } else {
            match ns[k].text {
                Some(t) => rest.push(t),
                None => rest,
            }
        }
    }
}

/// A variant with what it holds.
pub open spec fn variant_text(ns: Seq<NodeView>, i: int) -> Seq<char> {
    let name = or_mark(text_in_role(ns, i, "name"@));
    match child_of_kind(ns, i, "field_declaration_list"@) {
        Some(f) => {
            let fields = variant_fields(ns, kids(ns, f));
            if fields.len() == 0 {
                name
            } else {
                name + " { "@ + pieces::join(fields, ", "@) + " }"@
            }
        },
        None => match child_of_kind(ns, i, "ordered_field_declaration_list"@) {
            Some(t) => {
                let types = tuple_types(ns, kids(ns, t));
                if types.len() == 0 {
                    name
                } else {
                    name + "("@ + pieces::join(types, ", "@) + ")"@
                }
            },
            None => name,
        },
    }
}

pub open spec fn enum_variants(ns: Seq<NodeView>, ks: Seq<int>) -> Seq<Seq<char>>
    decreases ks.len(),
{
    if ks.len() == 0 {
        Seq::empty()
    } else {
        let k = ks.last();
        let rest = enum_variants(ns, ks.drop_last());
        if ns[k].kind == "enum_variant"@ {
            rest.push(variant_text(ns, k))
        } else {
            rest
        }
    }
}

pub open spec fn trait_methods(ns: Seq<NodeView>, ks: Seq<int>) -> Seq<Seq<char>>
    decreases ks.len(),
{
    if ks.len() == 0 {
        Seq::empty()
    } else {
        let k = ks.last();
        let rest = trait_methods(ns, ks.drop_last());
        if ns[k].kind == "function_signature_item"@ || ns[k].kind == "function_item"@ {
            match text_in_role(ns, k, "name"@) {
                Some(n) => rest.push(n),
                None => rest,
            }
        } else {
            rest
        }
    }
}

/// A type's name, and its parts out of the child of the kind.
pub open spec fn type_parts(
    ns: Seq<NodeView>,
    i: int,
    body: Seq<char>,
    parts: spec_fn(Seq<int>) -> Seq<Seq<char>>,
    shown: spec_fn(Seq<Seq<char>>) -> Seq<char>,
) -> Option<(Seq<char>, Seq<char>)> {
    match (text_in_role(ns, i, "name"@), child_of_kind(ns, i, body)) {
        (Some(name), Some(b)) => {
            let ps = parts(kids(ns, b));
            if ps.len() == 0 {
                None
            } else {
                Some((name, shown(ps)))
            }
        },
        _ => None,
    }
}

/// The type that a node defines, with its signature.
pub open spec fn type_at(ns: Seq<NodeView>, i: int) -> Option<(Seq<char>, Seq<char>)> {
    if ns[i].kind == "struct_item"@ {
        type_parts(
            ns,
            i,
            "field_declaration_list"@,
            |ks: Seq<int>| struct_fields(ns, ks),
            |ps: Seq<Seq<char>>| compact(ps, usize::MAX as int),
        )
    } else if ns[i].kind == "enum_item"@ {
        type_parts(
            ns,
            i,
            "enum_variant_list"@,
            |ks: Seq<int>| enum_variants(ns, ks),
            |ps: Seq<Seq<char>>| compact(ps, usize::MAX as int),
        )
    } else if ns[i].kind == "trait_item"@ {
        type_parts(
            ns,
            i,
            "declaration_list"@,
            |ks: Seq<int>| trait_methods(ns, ks),
            |ps: Seq<Seq<char>>| "trait { "@ + pieces::join(ps, ", "@) + " }"@,
        )
    } else {
        None
    }
}

/// The signatures among the first `n` nodes, each with the node it is of.
/// Of two types of one name the later counts if it stands inside the other,
/// else the earlier.
pub open spec fn types_upto(ns: Seq<NodeView>, n: int) -> Map<Seq<char>, (int, Seq<char>)>
    decreases n,
{
    if n <= 0 {
        Map::empty()
    } else {
        let m = types_upto(ns, n - 1);
        match type_at(ns, n - 1) {
            Some((name, sig)) => if m.dom().contains(name) && !below(ns, m[name].0, n - 1) {
                m
            } else {
                m.insert(name, (n - 1, sig))
            },
            None => m,
        }
    }
}

/// The signatures of the types of a tree.
pub open spec fn type_signatures(ns: Seq<NodeView>) -> Map<Seq<char>, Seq<char>> {
    let m = types_upto(ns, ns.len() as int);
    Map::new(|k: Seq<char>| m.dom().contains(k), |k: Seq<char>| m[k].1)
}

fn mark_missing(o: Option<String>) -> (r: String)
    ensures
        r@ == or_mark(text::opt_text(o)),
{
    match o {
        Some(s) => s,
        None => "?".to_owned(),
    }
}

fn list_struct_fields(nodes: &Vec<SyntaxNode>, body: usize) -> (r: Vec<String>)
    requires
        body < nodes.len(),
    ensures
        text::views(r@) == struct_fields(
            node_views(nodes@),
            kids(node_views(nodes@), body as int),
        ),
{
    let ghost ns = node_views(nodes@);
    let ks = kids_of(nodes, body);
    let ghost kv = indices(ks@);
    let mut out: Vec<String> = Vec::new();
    let mut i: usize = 0;
    proof {
        text::views_empty();
        assert(kv.take(0) =~= Seq::<int>::empty());
    }
    while i < ks.len()
        invariant
            i <= ks.len(),
            ns == node_views(nodes@),
            kv == indices(ks@),
            forall|k: int| 0 <= k < ks.len() ==> body < #[trigger] ks@[k] < nodes.len(),
            text::views(out@) == struct_fields(ns, kv.take(i as int)),
        decreases ks.len() - i,
    {
        let k: usize = ks[i];
        assert(kv.take(i + 1).drop_last() =~= kv.take(i as int));
        assert(kv.take(i + 1).last() == k);
        assert(ns[k as int] == nodes@[k as int]@);
        if same(nodes[k].kind.as_str(), "field_declaration") {
            let mut s = mark_missing(role_text(nodes, k, "name"));
            s.append(": ");
            s.append(mark_missing(role_text(nodes, k, "type")).as_str());
            out.push(s);
        }
        i += 1;
    }
    assert(kv.take(i as int) =~= kv);
    out
}

fn list_variant_fields(nodes: &Vec<SyntaxNode>, body: usize) -> (r: Vec<String>)
    requires
        body < nodes.len(),
    ensures
        text::views(r@) == variant_fields(
            node_views(nodes@),
            kids(node_views(nodes@), body as int),
        ),
{
    let ghost ns = node_views(nodes@);
    let ks = kids_of(nodes, body);
    let ghost kv = indices(ks@);
    let mut out: Vec<String> = Vec::new();
    let mut i: usize = 0;
    proof {
        text::views_empty();
        assert(kv.take(0) =~= Seq::<int>::empty());
    }
    while i < ks.len()
        invariant
            i <= ks.len(),
            ns == node_views(nodes@),
            kv == indices(ks@),
            forall|k: int| 0 <= k < ks.len() ==> body < #[trigger] ks@[k] < nodes.len(),
            text::views(out@) == variant_fields(ns, kv.take(i as int)),
        decreases ks.len() - i,
    {
        let k: usize = ks[i];
        assert(kv.take(i + 1).drop_last() =~= kv.take(i as int));
        assert(kv.take(i + 1).last() == k);
        assert(ns[k as int] == nodes@[k as int]@);
        if same(nodes[k].kind.as_str(), "field_declaration") {
            match (role_text(nodes, k, "name"), role_text(nodes, k, "type")) {
                (Some(n), Some(t)) => {
                    let mut s = n;
                    s.append(": ");
                    s.append(t.as_str());
                    out.push(s);
                },
                _ => {},
            }
        }
        i += 1;
    }
    assert(kv.take(i as int) =~= kv);
    out
}

fn list_tuple_types(nodes: &Vec<SyntaxNode>, body: usize) -> (r: Vec<String>)
    requires
        body < nodes.len(),
    ensures
        text::views(r@) == tuple_types(
            node_views(nodes@),
            kids(node_views(nodes@), body as int),
        ),
{
    let ghost ns = node_views(nodes@);
    let ks = kids_of(nodes, body);
    let ghost kv = indices(ks@);
    let marks = ["(", ")", ",", "visibility_modifier"];
    assert(text::texts(marks@) =~= punctuation());
    let mut out: Vec<String> = Vec::new();
    let mut i: usize = 0;
    proof {
        text::views_empty();
        assert(kv.take(0) =~= Seq::<int>::empty());
    }
    while i < ks.len()
        invariant
            i <= ks.len(),
            ns == node_views(nodes@),
            kv == indices(ks@),
            text::texts(marks@) == punctuation(),
            forall|k: int| 0 <= k < ks.len() ==> body < #[trigger] ks@[k] < nodes.len(),
            text::views(out@) == tuple_types(ns, kv.take(i as int)),
        decreases ks.len() - i,
    {
        let k: usize = ks[i];
        assert(kv.take(i + 1).drop_last() =~= kv.take(i as int));
        assert(kv.take(i + 1).last() == k);
        assert(ns[k as int] == nodes@[k as int]@);
        if !one_of(nodes[k].kind.as_str(), &marks) {
            match &nodes[k].text {
                Some(t) => {
                    out.push(t.clone());
                },
                None => {},
            }
        }
        i += 1;
    }
    assert(kv.take(i as int) =~= kv);
    out
}

fn show_variant(nodes: &Vec<SyntaxNode>, i: usize) -> (r: String)
    requires
        i < nodes.len(),
    ensures
        r@ == variant_text(node_views(nodes@), i as int),
{
    let mut name = mark_missing(role_text(nodes, i, "name"));
    match find_child_kind(nodes, i, "field_declaration_list") {
        Some(f) => {
            let fields = list_variant_fields(nodes, f);
            assert(text::views(fields@).len() == fields@.len());
            if fields.len() > 0 {
                name.append(" { ");
                name.append(join_with(&fields, ", ").as_str());
                name.append(" }");
            }
        },
        None => {
            match find_child_kind(nodes, i, "ordered_field_declaration_list") {
                Some(t) => {
                    let types = list_tuple_types(nodes, t);
                    assert(text::views(types@).len() == types@.len());
                    if types.len() > 0 {
                        name.append("(");
                        name.append(join_with(&types, ", ").as_str());
                        name.append(")");
                    }
                },
                None => {},
            }
        },
    }
    name
}

fn list_variants(nodes: &Vec<SyntaxNode>, body: usize) -> (r: Vec<String>)
    requires
        body < nodes.len(),
    ensures
        text::views(r@) == enum_variants(
            node_views(nodes@),
            kids(node_views(nodes@), body as int),
        ),
{
    let ghost ns = node_views(nodes@);
    let ks = kids_of(nodes, body);
    let ghost kv = indices(ks@);
    let mut out: Vec<String> = Vec::new();
    let mut i: usize = 0;
    proof {
        text::views_empty();
        assert(kv.take(0) =~= Seq::<int>::empty());
    }
    while i < ks.len()
        invariant
            i <= ks.len(),
            ns == node_views(nodes@),
            kv == indices(ks@),
            forall|k: int| 0 <= k < ks.len() ==> body < #[trigger] ks@[k] < nodes.len(),
            text::views(out@) == enum_variants(ns, kv.take(i as int)),
        decreases ks.len() - i,
    {
        let k: usize = ks[i];
        assert(kv.take(i + 1).drop_last() =~= kv.take(i as int));
        assert(kv.take(i + 1).last() == k);
        assert(ns[k as int] == nodes@[k as int]@);
        if same(nodes[k].kind.as_str(), "enum_variant") {
            out.push(show_variant(nodes, k));
        }
        i += 1;
    }
    assert(kv.take(i as int) =~= kv);
    out
}

fn list_methods(nodes: &Vec<SyntaxNode>, body: usize) -> (r: Vec<String>)
    requires
        body < nodes.len(),
    ensures
        text::views(r@) == trait_methods(
            node_views(nodes@),
            kids(node_views(nodes@), body as int),
        ),
{
    let ghost ns = node_views(nodes@);
    let ks = kids_of(nodes, body);
    let ghost kv = indices(ks@);
    let mut out: Vec<String> = Vec::new();
    let mut i: usize = 0;
    proof {
        text::views_empty();
        assert(kv.take(0) =~= Seq::<int>::empty());
    }
    while i < ks.len()
        invariant
            i <= ks.len(),
            ns == node_views(nodes@),
            kv == indices(ks@),
            forall|k: int| 0 <= k < ks.len() ==> body < #[trigger] ks@[k] < nodes.len(),
            text::views(out@) == trait_methods(ns, kv.take(i as int)),
        decreases ks.len() - i,
    {
        let k: usize = ks[i];
        assert(kv.take(i + 1).drop_last() =~= kv.take(i as int));
        assert(kv.take(i + 1).last() == k);
        assert(ns[k as int] == nodes@[k as int]@);
        if same(nodes[k].kind.as_str(), "function_signature_item") || same(
            nodes[k].kind.as_str(),
            "function_item",
        ) {
            match role_text(nodes, k, "name") {
                Some(n) => {
                    out.push(n);
                },
                None => {},
            }
        }
        i += 1;
    }
    assert(kv.take(i as int) =~= kv);
    out
}

pub open spec fn signed(o: Option<(String, String)>) -> Option<(Seq<char>, Seq<char>)> {
    match o {
        Some((a, b)) => Some((a@, b@)),
        None => None,
    }
}

fn struct_sig(nodes: &Vec<SyntaxNode>, i: usize) -> (r: Option<(String, String)>)
    requires
        i < nodes.len(),
        nodes@[i as int].kind@ == "struct_item"@,
    ensures
        signed(r) == type_at(node_views(nodes@), i as int),
{
    assert(node_views(nodes@)[i as int] == nodes@[i as int]@);
    match (role_text(nodes, i, "name"), find_child_kind(nodes, i, "field_declaration_list")) {
        (Some(name), Some(body)) => {
            let fields = list_struct_fields(nodes, body);
            assert(text::views(fields@).len() == fields@.len());
            if fields.len() == 0 {
                None
            } else {
                Some((name, format_compact(&fields, usize::MAX)))
            }
        },
        _ => None,
    }
}

proof fn kinds_differ()
    ensures
        "struct_item"@ != "enum_item"@,
        "struct_item"@ != "trait_item"@,
        "enum_item"@ != "trait_item"@,
{
    reveal_strlit("struct_item");
    reveal_strlit("enum_item");
    reveal_strlit("trait_item");
    assert("struct_item"@.len() == 11);
    assert("enum_item"@.len() == 9);
    assert("trait_item"@.len() == 10);
}

fn enum_sig(nodes: &Vec<SyntaxNode>, i: usize) -> (r: Option<(String, String)>)
    requires
        i < nodes.len(),
        nodes@[i as int].kind@ == "enum_item"@,
    ensures
        signed(r) == type_at(node_views(nodes@), i as int),
{
    proof {
        kinds_differ();
    }
    assert(node_views(nodes@)[i as int] == nodes@[i as int]@);
    match (role_text(nodes, i, "name"), find_child_kind(nodes, i, "enum_variant_list")) {
        (Some(name), Some(body)) => {
            let variants = list_variants(nodes, body);
            assert(text::views(variants@).len() == variants@.len());
            if variants.len() == 0 {
                None
            } else {
                Some((name, format_compact(&variants, usize::MAX)))
            }
        },
        _ => None,
    }
}

fn trait_sig(nodes: &Vec<SyntaxNode>, i: usize) -> (r: Option<(String, String)>)
    requires
        i < nodes.len(),
        nodes@[i as int].kind@ == "trait_item"@,
    ensures
        signed(r) == type_at(node_views(nodes@), i as int),
{
    proof {
        kinds_differ();
    }
    assert(node_views(nodes@)[i as int] == nodes@[i as int]@);
    match (role_text(nodes, i, "name"), find_child_kind(nodes, i, "declaration_list")) {
        (Some(name), Some(body)) => {
            let methods = list_methods(nodes, body);
            assert(text::views(methods@).len() == methods@.len());
            if methods.len() == 0 {
                None
            } else {
                let mut s = "trait { ".to_owned();
                s.append(join_with(&methods, ", ").as_str());
                s.append(" }");
                Some((name, s))
            }
        },
        _ => None,
    }
}

/// The text of each signature.
pub open spec fn signature_texts(m: Map<Seq<char>, (usize, String)>) -> Map<
    Seq<char>,
    (int, Seq<char>),
> {
    Map::new(
        |k: Seq<char>| m.dom().contains(k),
        |k: Seq<char>| (m[k].0 as int, m[k].1@),
    )
}

pub open spec fn texts_of(m: Map<Seq<char>, String>) -> Map<Seq<char>, Seq<char>> {
    Map::new(|k: Seq<char>| m.dom().contains(k), |k: Seq<char>| m[k]@)
}

/// The signatures of the types of a tree.
pub fn collect_type_signatures(nodes: &Vec<SyntaxNode>) -> (r: NameMap<String>)
    ensures
        texts_of(r@) == type_signatures(node_views(nodes@)),
{
    let ghost ns = node_views(nodes@);
    let mut m: NameMap<(usize, String)> = NameMap::new();
    let mut i: usize = 0;
    assert(signature_texts(m@) =~= Map::<Seq<char>, (int, Seq<char>)>::empty());
    while i < nodes.len()
        invariant
            i <= nodes.len(),
            ns == node_views(nodes@),
            signature_texts(m@) == types_upto(ns, i as int),
            forall|k: Seq<char>| #[trigger] m@.dom().contains(k) ==> m@[k].0 < i,
        decreases nodes.len() - i,
    {
        assert(ns[i as int] == nodes@[i as int]@);
        let kind = nodes[i].kind.as_str();
        let found = if same(kind, "struct_item") {
            struct_sig(nodes, i)
        } else if same(kind, "enum_item") {
            enum_sig(nodes, i)
        } else if same(kind, "trait_item") {
            trait_sig(nodes, i)
        } else {
            None
        };
        let ghost before = m@;
        match found {
            Some((name, sig)) => {
                let keep = match m.get(name.as_str()) {
                    Some(w) => !is_below(nodes, w.0, i),
                    None => false,
                };
                assert(signature_texts(before).dom().contains(name@) == before.dom().contains(name@));
                if !keep {
                    m.insert(name, (i, sig));
                    assert(signature_texts(m@) =~= signature_texts(before).insert(
                        name@,
                        (i as int, sig@),
                    ));
                }
            },
            None => {},
        }
        i += 1;
    }
    let total: usize = m.len();
    let ghost keys = m.names();
    let mut out: NameMap<String> = NameMap::new();
    let mut j: usize = 0;
    while j < total
        invariant
            j <= total,
            total == keys.len(),
            keys == m.names(),
            m.keyed(),
            forall|k: Seq<char>|
                #[trigger] out@.dom().contains(k) <==> keys.take(j as int).contains(k),
            forall|k: Seq<char>| #[trigger] out@.dom().contains(k) ==> out@[k]@ == m@[k].1@,
        decreases total - j,
    {
        let key = m.key_at(j);
        let value = m.value_at(j);
        proof {
            let seen = keys.take(j as int);
            let now = keys.take(j + 1);
            assert forall|k: Seq<char>| now.contains(k) == (seen.contains(k) || k == key@) by {
                if seen.contains(k) {
                    let x = choose|x: int| 0 <= x < seen.len() && seen[x] == k;
                    assert(now[x] == k);
                }
                if k == key@ {
                    assert(now[j as int] == k);
                }
                if now.contains(k) {
                    let x = choose|x: int| 0 <= x < now.len() && now[x] == k;
                    if x < j {
                        assert(seen[x] == k);
                    }
                }
            }
        }
        out.insert(key.clone(), value.1.clone());
        j += 1;
    }
    proof {
        assert(keys.take(j as int) =~= keys);
        assert(texts_of(out@) =~= type_signatures(ns)) by {
            let t = signature_texts(m@);
            assert forall|k: Seq<char>| texts_of(out@).dom().contains(k) == type_signatures(
                ns,
            ).dom().contains(k) by {
                assert(t.dom().contains(k) == m@.dom().contains(k));
                assert(m@.dom().contains(k) == keys.contains(k));
            }
            assert forall|k: Seq<char>| texts_of(out@).dom().contains(k) implies texts_of(out@)[k]
                == type_signatures(ns)[k] by {
                assert(m@.dom().contains(k) == keys.contains(k));
                assert(t[k] == (m@[k].0 as int, m@[k].1@));
            }
        }
    }
    out
}

// ── A whole file ─────────────────────────────────────────────────────────────

/// A symbol with the signature of its type, where it is a type of the file
/// that has one.
pub open spec fn with_signature(
    s: SymbolView,
    file: Seq<char>,
    signatures: Map<Seq<char>, Seq<char>>,
) -> SymbolView {
    if s.file == file && (s.kind == SymbolKind::Struct || s.kind == SymbolKind::Enum || s.kind
        == SymbolKind::Trait) && signatures.dom().contains(s.name) {
        SymbolView { signature: Some(signatures[s.name]), ..s }
    } else {
        s
    }
}

/// Gives the types among the symbols of a file their signatures.
pub fn add_signatures(symbols: &mut Vec<Symbol>, file: &str, signatures: &NameMap<String>)
    ensures
        index::symbol_views(final(symbols)@) == Seq::new(
            old(symbols)@.len(),
            |i: int| with_signature(old(symbols)@[i]@, file@, texts_of(signatures@)),
        ),
{
    let ghost was = symbols@;
    let ghost sigs = texts_of(signatures@);
    let n: usize = symbols.len();
    let mut i: usize = 0;
    while i < n
        invariant
            i <= n,
            n == symbols.len(),
            was.len() == n,
            sigs == texts_of(signatures@),
            forall|k: int|
                0 <= k < i ==> (#[trigger] symbols@[k])@ == with_signature(was[k]@, file@, sigs),
            forall|k: int| i <= k < n ==> #[trigger] symbols@[k] == was[k],
        decreases n - i,
    {
        let is_type = match symbols[i].kind {
            SymbolKind::Struct | SymbolKind::Enum | SymbolKind::Trait => true,
            _ => false,
        };
        if is_type && same(symbols[i].file.as_str(), file) {
            if let Some(sig) = signatures.get(symbols[i].name.as_str()) {
                let mut s = symbols[i].clone();
                s.signature = Some(sig.clone());
                symbols.set(i, s);
            }
        }
        i += 1;
    }
    assert(index::symbol_views(symbols@) =~= Seq::new(
        was.len(),
        |i: int| with_signature(was[i]@, file@, sigs),
    ));
}

/// Reads Rust source files.
#[derive(Debug)]
pub struct CallExtractor {}

impl CallExtractor {
    /// An extractor. The error would tell that the grammar does not fit the
    /// parser; it does.
    pub fn new() -> (r: Result<CallExtractor, String>)
        ensures
            r is Ok,
    {
        if grammar_fits() {
            Ok(CallExtractor {  })
        } else {
            Err("the Rust grammar does not fit the parser".to_owned())
        }
    }

    /// The calls that the symbols of a file make, by `file::symbol`.
    pub fn extract_file(
        &mut self,
        content: &str,
        file: &str,
        symbols: &Vec<Symbol>,
        known_names: &NameMap<Vec<String>>,
    ) -> (r: NameMap<Vec<CallEdge>>)
        ensures
            edge_lists(r@) == (match rust_tree(content@) {
                Some(ns) => call_edges(
                    calls_upto(ns, ns.len() as int),
                    file@,
                    in_file(index::symbol_views(symbols@), file@),
                    known_names@.dom(),
                ),
                None => Map::empty(),
            }),
    {
        match parse_rust(content) {
            Some(nodes) => {
                assert(node_views(nodes@).len() == nodes@.len());
                let calls = collect_calls(&nodes);
                edges_of_calls(&calls, file, symbols, known_names)
            },
            None => {
                let r: NameMap<Vec<CallEdge>> = NameMap::new();
                assert(edge_lists(r@) =~= Map::<Seq<char>, Seq<EdgeView>>::empty());
                r
            },
        }
    }

    /// The values that the symbols of a file construct, by `file::symbol`.
    pub fn extract_constructions(
        &mut self,
        content: &str,
        file: &str,
        symbols: &Vec<Symbol>,
        known_names: &NameMap<Vec<String>>,
    ) -> (r: NameMap<Vec<CallEdge>>)
        ensures
            edge_lists(r@) == (match rust_tree(content@) {
                Some(ns) => made_edges(
                    made_upto(ns, known_names@.dom(), ns.len() as int),
                    file@,
                    in_file(index::symbol_views(symbols@), file@),
                ),
                None => Map::empty(),
            }),
    {
        match parse_rust(content) {
            Some(nodes) => {
                assert(node_views(nodes@).len() == nodes@.len());
                let made = collect_struct_constructions(&nodes, known_names);
                edges_of_constructions(&made, file, symbols)
            },
            None => {
                let r: NameMap<Vec<CallEdge>> = NameMap::new();
                assert(edge_lists(r@) =~= Map::<Seq<char>, Seq<EdgeView>>::empty());
                r
            },
        }
    }

    /// The signatures of the types of a file, by name.
    pub fn extract_signatures(&mut self, content: &str) -> (r: NameMap<String>)
        ensures
            texts_of(r@) == (match rust_tree(content@) {
                Some(ns) => type_signatures(ns),
                None => Map::empty(),
            }),
    {
        match parse_rust(content) {
            Some(nodes) => collect_type_signatures(&nodes),
            None => {
                let r: NameMap<String> = NameMap::new();
                assert(texts_of(r@) =~= Map::<Seq<char>, Seq<char>>::empty());
                r
            },
        }
    }
}

// ── What every file keeps ────────────────────────────────────────────────────

/// Whether no caller reaches a callee twice.
pub open spec fn single_edges(m: Map<Seq<char>, Seq<EdgeView>>) -> bool {
    forall|k: Seq<char>, i: int, j: int|
        #![trigger m[k][i], m[k][j]]
        m.dom().contains(k) && 0 <= i < j < m[k].len() ==> m[k][i].callee != m[k][j].callee
}

proof fn with_edge_single(m: Map<Seq<char>, Seq<EdgeView>>, key: Seq<char>, e: EdgeView)
    requires
        single_edges(m),
    ensures
        single_edges(with_edge(m, key, e)),
{
    let r = with_edge(m, key, e);
    assert forall|k: Seq<char>, i: int, j: int|
        #![trigger r[k][i], r[k][j]]
        r.dom().contains(k) && 0 <= i < j < r[k].len() implies r[k][i].callee != r[k][j].callee by {
        let es = edges_at(m, key);
        if k == key {
            if j < es.len() {
                assert(m.dom().contains(key));
                assert(m[k][i] == es[i] && m[k][j] == es[j]);
            } else {
                assert(r[k][i] == es[i]);
                assert(es[i].callee != e.callee);
            }
        } else {
            assert(m[k][i] == r[k][i] && m[k][j] == r[k][j]);
        }
    }
}

/// A caller has one edge to a callee, however often it calls it.
pub proof fn calls_are_single(
    calls: Seq<(int, Seq<char>)>,
    file: Seq<char>,
    syms: Seq<SymbolView>,
    known: Set<Seq<char>>,
)
    ensures
        single_edges(call_edges(calls, file, syms, known)),
    decreases calls.len(),
{
    if calls.len() > 0 {
        calls_are_single(calls.drop_last(), file, syms, known);
        let m = call_edges(calls.drop_last(), file, syms, known);
        let (line, callee) = calls.last();
        if let Some(s) = containing(syms, line) {
            with_edge_single(
                m,
                flowpaths::key_of(file, s.name),
                EdgeView { callee, call_line: line },
            );
        }
    }
}

/// A caller has one edge to what it constructs, however often it does.
pub proof fn constructions_are_single(
    made: Seq<(int, Seq<char>)>,
    file: Seq<char>,
    syms: Seq<SymbolView>,
)
    ensures
        single_edges(made_edges(made, file, syms)),
    decreases made.len(),
{
    if made.len() > 0 {
        constructions_are_single(made.drop_last(), file, syms);
        let m = made_edges(made.drop_last(), file, syms);
        let (line, callee) = made.last();
        if let Some(s) = containing(syms, line) {
            with_edge_single(
                m,
                flowpaths::key_of(file, s.name),
                EdgeView { callee, call_line: line },
            );
        }
    }
}

// ── What edges tell ──────────────────────────────────────────────────────────

/// Whether site `i` is the first by which `key` reaches `callee`.
pub open spec fn first_site(
    does: spec_fn(int, Seq<char>, Seq<char>) -> bool,
    i: int,
    key: Seq<char>,
    callee: Seq<char>,
) -> bool {
    0 <= i && does(i, key, callee) && forall|h: int| 0 <= h < i ==> !(#[trigger] does(h, key, callee))
}

/// Whether an edge tells of the first of the first `n` sites by which `key`
/// reaches its callee.
pub open spec fn told_by(
    does: spec_fn(int, Seq<char>, Seq<char>) -> bool,
    line: spec_fn(int) -> int,
    n: int,
    key: Seq<char>,
    e: EdgeView,
) -> bool {
    exists|i: int| #[trigger] first_site(does, i, key, e.callee) && i < n && e.call_line == line(i)
}

/// Whether edges tell of the first `n` sites and of nothing else: whatever a
/// site makes `key` reach is the callee of one of its edges, each edge tells
/// of the first site of its callee, and they stand in the order of these
/// sites. What reaches nothing has no entry.
pub open spec fn edges_tell(
    m: Map<Seq<char>, Seq<EdgeView>>,
    does: spec_fn(int, Seq<char>, Seq<char>) -> bool,
    line: spec_fn(int) -> int,
    n: int,
) -> bool {
    &&& forall|i: int, key: Seq<char>, callee: Seq<char>|
        0 <= i < n && #[trigger] does(i, key, callee) ==> m.dom().contains(key) && reaches(
            m[key],
            callee,
        )
    &&& forall|key: Seq<char>| #[trigger] m.dom().contains(key) ==> m[key].len() > 0
    &&& forall|key: Seq<char>, j: int|
        m.dom().contains(key) && 0 <= j < m[key].len() ==> told_by(
            does,
            line,
            n,
            key,
            #[trigger] m[key][j],
        )
    &&& forall|key: Seq<char>, j: int, k: int, a: int, b: int|
        #![trigger first_site(does, a, key, m[key][j].callee), first_site(does, b, key, m[key][k].callee)]
        m.dom().contains(key) && 0 <= j < k < m[key].len() && first_site(
            does,
            a,
            key,
            m[key][j].callee,
        ) && first_site(does, b, key, m[key][k].callee) ==> a < b
}

proof fn first_is_one(
    does: spec_fn(int, Seq<char>, Seq<char>) -> bool,
    a: int,
    b: int,
    key: Seq<char>,
    callee: Seq<char>,
)
    requires
        first_site(does, a, key, callee),
        first_site(does, b, key, callee),
    ensures
        a == b,
{
}

proof fn tell_nothing(
    m: Map<Seq<char>, Seq<EdgeView>>,
    does: spec_fn(int, Seq<char>, Seq<char>) -> bool,
    line: spec_fn(int) -> int,
    n: int,
)
    requires
        n >= 0,
        edges_tell(m, does, line, n),
        forall|key: Seq<char>, callee: Seq<char>| !(#[trigger] does(n, key, callee)),
    ensures
        edges_tell(m, does, line, n + 1),
{
    assert forall|key: Seq<char>, j: int|
        m.dom().contains(key) && 0 <= j < m[key].len() implies told_by(
        does,
        line,
        n + 1,
        key,
        #[trigger] m[key][j],
    ) by {
        assert(told_by(does, line, n, key, m[key][j]));
        let i = choose|i: int| #[trigger]
            first_site(does, i, key, m[key][j].callee) && i < n && m[key][j].call_line == line(i);
        assert(first_site(does, i, key, m[key][j].callee));
    }
}

proof fn tell_one(
    m: Map<Seq<char>, Seq<EdgeView>>,
    does: spec_fn(int, Seq<char>, Seq<char>) -> bool,
    line: spec_fn(int) -> int,
    n: int,
    key: Seq<char>,
    callee: Seq<char>,
)
    requires
        n >= 0,
        edges_tell(m, does, line, n),
        does(n, key, callee),
        forall|k: Seq<char>, c: Seq<char>| #[trigger] does(n, k, c) ==> k == key && c == callee,
    ensures
        edges_tell(
            with_edge(m, key, EdgeView { callee, call_line: line(n) }),
            does,
            line,
            n + 1,
        ),
{
    let e = EdgeView { callee, call_line: line(n) };
    let m2 = with_edge(m, key, e);
    let es = edges_at(m, key);
    let known = reaches(es, callee);
    if !known {
        assert forall|h: int| 0 <= h < n implies !(#[trigger] does(h, key, callee)) by {
            if does(h, key, callee) {
                assert(reaches(m[key], callee));
            }
        }
        assert(first_site(does, n, key, callee));
        assert(es.push(e)[es.len() as int] == e);
        assert(reaches(m2[key], callee));
    }
    assert forall|i: int, k: Seq<char>, c: Seq<char>|
        0 <= i < n + 1 && #[trigger] does(i, k, c) implies m2.dom().contains(k) && reaches(
        m2[k],
        c,
    ) by {
        if i < n {
            assert(reaches(m[k], c));
            let x = choose|x: int| 0 <= x < m[k].len() && (#[trigger] m[k][x]).callee == c;
            assert(m2[k][x] == m[k][x]);
        }
    }
    assert forall|k: Seq<char>| #[trigger] m2.dom().contains(k) implies m2[k].len() > 0 by {
        if k != key {
            assert(m.dom().contains(k));
        } else if known {
            let x = choose|x: int| 0 <= x < es.len() && (#[trigger] es[x]).callee == callee;
            assert(0 <= x < es.len());
        }
    }
    assert forall|k: Seq<char>, j: int|
        m2.dom().contains(k) && 0 <= j < m2[k].len() implies told_by(
        does,
        line,
        n + 1,
        k,
        #[trigger] m2[k][j],
    ) by {
        if m.dom().contains(k) && j < m[k].len() {
            assert(m2[k][j] == m[k][j]);
            assert(told_by(does, line, n, k, m[k][j]));
            let i = choose|i: int| #[trigger]
                first_site(does, i, k, m[k][j].callee) && i < n && m[k][j].call_line == line(i);
            assert(first_site(does, i, k, m2[k][j].callee));
        } else {
            assert(k == key && m2[k][j] == e);
            assert(first_site(does, n, key, e.callee));
        }
    }
    assert forall|k: Seq<char>, j: int, l: int, a: int, b: int|
        #![trigger first_site(does, a, k, m2[k][j].callee), first_site(does, b, k, m2[k][l].callee)]
        m2.dom().contains(k) && 0 <= j < l < m2[k].len() && first_site(
            does,
            a,
            k,
            m2[k][j].callee,
        ) && first_site(does, b, k, m2[k][l].callee) implies a < b by {
        if m.dom().contains(k) && l < m[k].len() {
            assert(m2[k][j] == m[k][j] && m2[k][l] == m[k][l]);
            assert(first_site(does, a, k, m[k][j].callee) && first_site(does, b, k, m[k][l].callee));
        } else {
            assert(k == key && m2[k][l] == e);
            first_is_one(does, b, n, key, callee);
            assert(m2[k][j] == es[j]);
            assert(told_by(does, line, n, k, m[k][j]));
            let i = choose|i: int| #[trigger]
                first_site(does, i, k, m[k][j].callee) && i < n && m[k][j].call_line == line(i);
            first_is_one(does, a, i, k, m[k][j].callee);
        }
    }
}

/// Call `i` is one by which `key` reaches `callee`: the callee is known, and
/// the symbol around the call, which is another, has that key.
pub open spec fn called_by(
    calls: Seq<(int, Seq<char>)>,
    file: Seq<char>,
    syms: Seq<SymbolView>,
    known: Set<Seq<char>>,
) -> spec_fn(int, Seq<char>, Seq<char>) -> bool {
    |i: int, key: Seq<char>, callee: Seq<char>|
        0 <= i < calls.len() && calls[i].1 == callee && known.contains(callee) && (match containing(
            syms,
            calls[i].0,
        ) {
            Some(s) => s.name != callee && key == file + "::"@ + s.name,
            None => false,
        })
}

/// Construction `i` is one by which `key` reaches `callee`: the symbol
/// around it, which is no part of what is constructed, has that key.
pub open spec fn made_by(
    made: Seq<(int, Seq<char>)>,
    file: Seq<char>,
    syms: Seq<SymbolView>,
) -> spec_fn(int, Seq<char>, Seq<char>) -> bool {
    |i: int, key: Seq<char>, callee: Seq<char>|
        0 <= i < made.len() && made[i].1 == callee && (match containing(syms, made[i].0) {
            Some(s) => s.name != pieces::before_text(callee, "::"@) && key == file + "::"@ + s.name,
            None => false,
        })
}

pub open spec fn lines_of_sites(sites: Seq<(int, Seq<char>)>) -> spec_fn(int) -> int {
    |i: int| sites[i].0
}

proof fn calls_told(
    calls: Seq<(int, Seq<char>)>,
    n: int,
    file: Seq<char>,
    syms: Seq<SymbolView>,
    known: Set<Seq<char>>,
)
    requires
        0 <= n <= calls.len(),
    ensures
        edges_tell(
            call_edges(calls.take(n), file, syms, known),
            called_by(calls, file, syms, known),
            lines_of_sites(calls),
            n,
        ),
    decreases n,
{
    let does = called_by(calls, file, syms, known);
    let line = lines_of_sites(calls);
    if n > 0 {
        calls_told(calls, n - 1, file, syms, known);
        assert(calls.take(n).drop_last() =~= calls.take(n - 1));
        assert(calls.take(n).last() == calls[n - 1]);
        let m = call_edges(calls.take(n - 1), file, syms, known);
        let callee = calls[n - 1].1;
        match containing(syms, calls[n - 1].0) {
            Some(s) => {
                if known.contains(callee) && s.name != callee {
                    let key = file + "::"@ + s.name;
                    assert(does(n - 1, key, callee));
                    tell_one(m, does, line, n - 1, key, callee);
                } else {
                    tell_nothing(m, does, line, n - 1);
                }
            },
            None => {
                tell_nothing(m, does, line, n - 1);
            },
        }
    }
}

proof fn constructions_told(
    made: Seq<(int, Seq<char>)>,
    n: int,
    file: Seq<char>,
    syms: Seq<SymbolView>,
)
    requires
        0 <= n <= made.len(),
    ensures
        edges_tell(
            made_edges(made.take(n), file, syms),
            made_by(made, file, syms),
            lines_of_sites(made),
            n,
        ),
    decreases n,
{
    let does = made_by(made, file, syms);
    let line = lines_of_sites(made);
    if n > 0 {
        constructions_told(made, n - 1, file, syms);
        assert(made.take(n).drop_last() =~= made.take(n - 1));
        assert(made.take(n).last() == made[n - 1]);
        let m = made_edges(made.take(n - 1), file, syms);
        let callee = made[n - 1].1;
        match containing(syms, made[n - 1].0) {
            Some(s) => {
                if s.name != pieces::before_text(callee, "::"@) {
                    let key = file + "::"@ + s.name;
                    assert(does(n - 1, key, callee));
                    tell_one(m, does, line, n - 1, key, callee);
                } else {
                    tell_nothing(m, does, line, n - 1);
                }
            },
            None => {
                tell_nothing(m, does, line, n - 1);
            },
        }
    }
}

/// The edges of calls tell of every call of a known name, by the symbol
/// around it, and of nothing else.
pub proof fn edges_tell_of_calls(
    calls: Seq<(int, Seq<char>)>,
    file: Seq<char>,
    syms: Seq<SymbolView>,
    known: Set<Seq<char>>,
)
    ensures
        edges_tell(
            call_edges(calls, file, syms, known),
            called_by(calls, file, syms, known),
            lines_of_sites(calls),
            calls.len() as int,
        ),
{
    calls_told(calls, calls.len() as int, file, syms, known);
    assert(calls.take(calls.len() as int) =~= calls);
}

/// The edges of constructions tell of every construction, by the symbol
/// around it, and of nothing else.
pub proof fn edges_tell_of_constructions(
    made: Seq<(int, Seq<char>)>,
    file: Seq<char>,
    syms: Seq<SymbolView>,
)
    ensures
        edges_tell(
            made_edges(made, file, syms),
            made_by(made, file, syms),
            lines_of_sites(made),
            made.len() as int,
        ),
{
    constructions_told(made, made.len() as int, file, syms);
    assert(made.take(made.len() as int) =~= made);
}

// ── What trees tell ──────────────────────────────────────────────────────────

proof fn children_are(ns: Seq<NodeView>, i: int, j: int, k: int)
    requires
        0 <= i < j <= ns.len(),
        forall|x: int| i < x < j ==> (#[trigger] ns[x]).depth > ns[i].depth,
    ensures
        children(ns, i, j).contains(k) <==> j <= k < ns.len() && ns[k].depth == ns[i].depth + 1
            && below(ns, i, k),
        forall|a: int, b: int|
            0 <= a < b < children(ns, i, j).len() ==> children(ns, i, j)[a] < children(ns, i, j)[b],
        forall|a: int| 0 <= a < children(ns, i, j).len() ==> j <= #[trigger] children(ns, i, j)[a],
    decreases ns.len() - j,
{
    let c = children(ns, i, j);
    if j >= ns.len() || ns[j].depth <= ns[i].depth {
        if j < ns.len() && j <= k < ns.len() && below(ns, i, k) {
            assert(ns[j].depth > ns[i].depth);
        }
    } else {
        children_are(ns, i, j + 1, k);
        let rest = children(ns, i, j + 1);
        if ns[j].depth == ns[i].depth + 1 {
            assert(c == seq![j] + rest);
            assert(c[0] == j);
            assert(below(ns, i, j));
            if rest.contains(k) {
                let x = rest.index_of(k);
                assert(c[x + 1] == k);
            }
            if c.contains(k) && k != j {
                let x = c.index_of(k);
                assert(rest[x - 1] == k);
            }
            assert forall|a: int, b: int| 0 <= a < b < c.len() implies c[a] < c[b] by {
                assert(c[b] == rest[b - 1]);
                if a > 0 {
                    assert(c[a] == rest[a - 1]);
                }
            }
            assert forall|a: int| 0 <= a < c.len() implies j <= #[trigger] c[a] by {
                if a > 0 {
                    assert(c[a] == rest[a - 1]);
                }
            }
        }
    }
}

/// The children of a node are the nodes one level below it that stand in it,
/// in their order.
pub proof fn kids_are_one_level_below(ns: Seq<NodeView>, i: int, k: int)
    requires
        0 <= i < ns.len(),
    ensures
        kids(ns, i).contains(k) <==> i < k < ns.len() && ns[k].depth == ns[i].depth + 1 && (forall|x: int|
            i < x <= k ==> (#[trigger] ns[x]).depth > ns[i].depth),
        forall|a: int, b: int| 0 <= a < b < kids(ns, i).len() ==> kids(ns, i)[a] < kids(ns, i)[b],
{
    children_are(ns, i, i + 1, k);
}

proof fn first_in_role(ns: Seq<NodeView>, ks: Seq<int>, role: Seq<char>)
    ensures
        match in_role(ns, ks, role) {
            Some(k) => exists|a: int|
                0 <= a < ks.len() && #[trigger] ks[a] == k && ns[k].field == Some(role) && (forall|b: int|
                    0 <= b < a ==> ns[#[trigger] ks[b]].field != Some(role)),
            None => forall|b: int| 0 <= b < ks.len() ==> ns[#[trigger] ks[b]].field != Some(role),
        },
    decreases ks.len(),
{
    if ks.len() > 0 && ns[ks[0]].field != Some(role) {
        let t = ks.skip(1);
        first_in_role(ns, t, role);
        match in_role(ns, ks, role) {
            Some(k) => {
                let a = choose|a: int|
                    0 <= a < t.len() && #[trigger] t[a] == k && ns[k].field == Some(role) && (forall|b: int|
                        0 <= b < a ==> ns[#[trigger] t[b]].field != Some(role));
                assert(ks[a + 1] == k);
                assert forall|b: int| 0 <= b < a + 1 implies ns[#[trigger] ks[b]].field != Some(role) by {
                    if b > 0 {
                        assert(t[b - 1] == ks[b]);
                    }
                }
            },
            None => {
                assert forall|b: int| 0 <= b < ks.len() implies ns[#[trigger] ks[b]].field != Some(
                    role,
                ) by {
                    if b > 0 {
                        assert(t[b - 1] == ks[b]);
                    }
                }
            },
        }
    } else if ks.len() > 0 {
        assert(ks[0] == ks[0]);
    }
}

/// The child in a role is a child that has it, and none before it has; where
/// none is found, no child has the role.
pub proof fn child_in_role_is_first(ns: Seq<NodeView>, i: int, role: Seq<char>)
    requires
        0 <= i < ns.len(),
    ensures
        match child_in_role(ns, i, role) {
            Some(k) => kids(ns, i).contains(k) && ns[k].field == Some(role) && (forall|j: int|
                kids(ns, i).contains(j) && j < k ==> (#[trigger] ns[j]).field != Some(role)),
            None => forall|j: int|
                kids(ns, i).contains(j) ==> (#[trigger] ns[j]).field != Some(role),
        },
{
    let ks = kids(ns, i);
    first_in_role(ns, ks, role);
    kids_are_one_level_below(ns, i, 0);
    match child_in_role(ns, i, role) {
        Some(k) => {
            let a = choose|a: int|
                0 <= a < ks.len() && #[trigger] ks[a] == k && ns[k].field == Some(role) && (forall|b: int|
                    0 <= b < a ==> ns[#[trigger] ks[b]].field != Some(role));
            assert forall|j: int| ks.contains(j) && j < k implies (#[trigger] ns[j]).field != Some(
                role,
            ) by {
                let b = ks.index_of(j);
                assert(ks[b] == j);
                if b > a {
                    assert(ks[a] < ks[b]);
                }
            }
        },
        None => {
            assert forall|j: int| ks.contains(j) implies (#[trigger] ns[j]).field != Some(role) by {
                let b = ks.index_of(j);
                assert(ks[b] == j);
            }
        },
    }
}

proof fn expressions_differ()
    ensures
        "identifier"@ != "scoped_identifier"@,
        "identifier"@ != "field_expression"@,
        "identifier"@ != "generic_function"@,
        "scoped_identifier"@ != "field_expression"@,
        "scoped_identifier"@ != "generic_function"@,
        "field_expression"@ != "generic_function"@,
        "call_expression"@ != "method_call_expression"@,
        "call_expression"@ != "struct_expression"@,
        "type_identifier"@ != "scoped_type_identifier"@,
{
    reveal_strlit("identifier");
    reveal_strlit("scoped_identifier");
    reveal_strlit("field_expression");
    reveal_strlit("generic_function");
    reveal_strlit("call_expression");
    reveal_strlit("method_call_expression");
    reveal_strlit("struct_expression");
    reveal_strlit("type_identifier");
    reveal_strlit("scoped_type_identifier");
    assert("identifier"@.len() == 10);
    assert("field_expression"@[0] == 'f' && "generic_function"@[0] == 'g');
    assert("scoped_identifier"@.len() == 17);
    assert("call_expression"@.len() == 15);
    assert("struct_expression"@.len() == 17);
    assert("type_identifier"@.len() == 15);
    assert("scoped_type_identifier"@.len() == 22);
}

/// A call is of the name that the called expression ends with: of a name the
/// name itself, of a path its last segment, of a field the field, and of
/// either with type arguments the same; its line counts from one. A method
/// call is of the method's name, unless that is empty. No other node is a
/// call.
pub proof fn call_is_of_the_last_name(ns: Seq<NodeView>, i: int, f: int, n: Seq<char>)
    requires
        0 <= i < ns.len(),
        ns[i].start_row < usize::MAX,
    ensures
        ns[i].kind == "call_expression"@ && child_in_role(ns, i, "function"@) == Some(f) && 0 <= f
            < ns.len() ==> {
            let line = ns[i].start_row + 1;
            &&& ns[f].kind == "identifier"@ && ns[f].text == Some(n) ==> call_at(ns, i) == Some(
                (line, n),
            )
            &&& ns[f].kind == "scoped_identifier"@ && text_in_role(ns, f, "name"@) == Some(n)
                ==> call_at(ns, i) == Some((line, n))
            &&& ns[f].kind == "field_expression"@ && text_in_role(ns, f, "field"@) == Some(n)
                ==> call_at(ns, i) == Some((line, n))
            &&& ns[f].kind == "generic_function"@ ==> (child_in_role(ns, f, "function"@) matches Some(
                g,
            ) ==> call_at(ns, i) == (match called(ns, g) {
                Some(m) => Some((line, m)),
                None => None,
            }))
            &&& ns[f].kind != "identifier"@ && ns[f].kind != "scoped_identifier"@ && ns[f].kind
                != "field_expression"@ && ns[f].kind != "generic_function"@ ==> call_at(ns, i) is None
        },
        ns[i].kind == "method_call_expression"@ && text_in_role(ns, i, "name"@) == Some(n) && n.len()
            > 0 ==> call_at(ns, i) == Some((ns[i].start_row + 1, n)),
        ns[i].kind == "method_call_expression"@ && text_in_role(ns, i, "name"@) == Some(
            Seq::<char>::empty(),
        ) ==> call_at(ns, i) is None,
        ns[i].kind != "call_expression"@ && ns[i].kind != "method_call_expression"@ ==> call_at(
            ns,
            i,
        ) is None,
{
    expressions_differ();
}

/// A struct expression constructs the path that it names, the type of its
/// innermost `impl` where it names `Self`, and else the name where that is
/// known; a call constructs the known type whose `new`, `default` or `build`
/// it calls. No other node constructs anything.
pub proof fn construction_is_of_a_type(
    ns: Seq<NodeView>,
    known: Set<Seq<char>>,
    i: int,
    k: int,
    t: Seq<char>,
)
    requires
        0 <= i < ns.len(),
        ns[i].start_row < usize::MAX,
    ensures
        ns[i].kind == "struct_expression"@ && child_in_role(ns, i, "name"@) == Some(k) && ns[k].text
            == Some(t) ==> {
            let line = ns[i].start_row + 1;
            &&& ns[k].kind == "scoped_type_identifier"@ ==> made_at(ns, i, known) == Some((line, t))
            &&& ns[k].kind == "type_identifier"@ && t != "Self"@ ==> made_at(ns, i, known) == (
            if known.contains(t) {
                Some((line, t))
            } else {
                None
            })
            &&& ns[k].kind == "type_identifier"@ && t == "Self"@ ==> made_at(ns, i, known) == (
            match enclosing_impl(ns, i, i) {
                Some(b) => match impl_base(ns, b) {
                    Some(n) => Some((line, n)),
                    None => None,
                },
                None => None,
            })
        },
        ns[i].kind == "call_expression"@ && child_in_role(ns, i, "function"@) == Some(k) && ns[k].kind
            == "scoped_identifier"@ && text_in_role(ns, k, "path"@) == Some(t) ==> (text_in_role(
            ns,
            k,
            "name"@,
        ) matches Some(m) ==> made_at(ns, i, known) == (if known.contains(t) && (m == "new"@ || m
            == "default"@ || m == "build"@) {
            Some((ns[i].start_row + 1, t))
        } else {
            None
        })),
        ns[i].kind == "call_expression"@ && child_in_role(ns, i, "function"@) == Some(k) && ns[k].kind
            != "scoped_identifier"@ ==> made_at(ns, i, known) is None,
        ns[i].kind != "call_expression"@ && ns[i].kind != "struct_expression"@ ==> made_at(
            ns,
            i,
            known,
        ) is None,
{
    expressions_differ();
    let c = constructors();
    assert(c[0] == "new"@ && c[1] == "default"@ && c[2] == "build"@);
    assert(c.len() == 3);
}

/// The type of an `impl` is named without its parameters.
pub proof fn impl_type_has_no_parameters(ns: Seq<NodeView>, i: int, name: Seq<char>, more: Seq<char>)
    requires
        ns[i].kind == "impl_item"@,
        name.len() > 0,
        !text::is_white(name[0]),
        !text::is_white(name.last()),
        !name.contains('<'),
        text_in_role(ns, i, "type"@) == Some(name) || text_in_role(ns, i, "type"@) == Some(
            name + "<"@ + more,
        ),
    ensures
        impl_base(ns, i) == Some(name),
{
    reveal_strlit("<");
    let c = "<"@;
    text::find_is_first(name, c);
    if text::contains(name, c) {
        let j = choose|j: int| text::occurs_at(name, c, j);
        assert(name.subrange(j, j + 1)[0] == name[j]);
    }
    assert(!text::contains(name, c));
    pieces::split_at_sign(name, c, more);
    assert(pieces::before_text(name + c + more, c) == name);
    text::lead_bound(name, text::CharSet::White, true);
    assert(text::lead(name, text::CharSet::White, true) == 0);
    assert(name.skip(0) =~= name);
    assert(name.take(name.len() as int) =~= name);
    assert(text::trim(name) == name);
}

/// The calls of a tree are those of its nodes, in their order, and so are the
/// constructions.
pub proof fn every_node_is_asked(ns: Seq<NodeView>, known: Set<Seq<char>>, n: int)
    requires
        0 <= n,
    ensures
        calls_upto(ns, n) == Seq::new(n as nat, |i: int| call_at(ns, i)).filter(
            |c: Option<(int, Seq<char>)>| c is Some,
        ).map_values(|c: Option<(int, Seq<char>)>| c->0),
        made_upto(ns, known, n) == Seq::new(n as nat, |i: int| made_at(ns, i, known)).filter(
            |c: Option<(int, Seq<char>)>| c is Some,
        ).map_values(|c: Option<(int, Seq<char>)>| c->0),
    decreases n,
{
    reveal(Seq::filter);
    let some = |c: Option<(int, Seq<char>)>| c is Some;
    let got = |c: Option<(int, Seq<char>)>| c->0;
    let a = Seq::new(n as nat, |i: int| call_at(ns, i));
    let b = Seq::new(n as nat, |i: int| made_at(ns, i, known));
    if n > 0 {
        every_node_is_asked(ns, known, n - 1);
        assert(a.drop_last() =~= Seq::new((n - 1) as nat, |i: int| call_at(ns, i)));
        assert(b.drop_last() =~= Seq::new((n - 1) as nat, |i: int| made_at(ns, i, known)));
        assert(a.last() == call_at(ns, n - 1));
        assert(b.last() == made_at(ns, n - 1, known));
        let fa = a.drop_last().filter(some);
        let fb = b.drop_last().filter(some);
        assert(fa.push(a.last()).map_values(got) =~= fa.map_values(got).push(a.last()->0));
        assert(fb.push(b.last()).map_values(got) =~= fb.map_values(got).push(b.last()->0));
    } else {
        assert(a =~= Seq::empty());
        assert(b =~= Seq::empty());
        assert(a.filter(some).map_values(got) =~= Seq::empty());
        assert(b.filter(some).map_values(got) =~= Seq::empty());
    }
}

/// Of the symbols that span a line and begin last, the last one is taken.
pub proof fn last_of_equals_is_taken(syms: Seq<SymbolView>, line: int, i: int)
    requires
        0 <= i < syms.len(),
        syms[i].line <= line <= syms[i].end_line,
        forall|k: int|
            0 <= k < syms.len() && (#[trigger] syms[k]).line <= line <= syms[k].end_line
                ==> syms[k].line < syms[i].line || (syms[k].line == syms[i].line && k <= i),
    ensures
        containing(syms, line) == Some(syms[i]),
    decreases syms.len(),
{
    let t = syms.drop_last();
    containing_is_innermost(t, line);
    assert(forall|k: int| 0 <= k < t.len() ==> #[trigger] syms[k] == t[k]);
    if i < t.len() {
        last_of_equals_is_taken(t, line, i);
    } else {
        if let Some(b) = containing(t, line) {
            let k = t.index_of(b);
            assert(syms[k] == b);
        }
    }
}

/// The symbols of a file are those that name it, in their order.
pub proof fn files_symbols_are_its_own(syms: Seq<SymbolView>, file: Seq<char>)
    ensures
        in_file(syms, file) == syms.filter(|s: SymbolView| s.file == file),
    decreases syms.len(),
{
    reveal(Seq::filter);
    if syms.len() > 0 {
        files_symbols_are_its_own(syms.drop_last(), file);
    }
}

// ── What signatures show ─────────────────────────────────────────────────────

proof fn shown_length(items: Seq<Seq<char>>, n: int)
    requires
        0 <= n < items.len(),
    ensures
        pieces::join(items.take(n + 1), ", "@).len() == pieces::join(items.take(n), ", "@).len()
            + items[n].len() + (if n == 0 {
            0int
        } else {
            2
        }),
{
    reveal_strlit(", ");
    let a = items.take(n + 1);
    assert(a.drop_last() =~= items.take(n));
    assert(a.last() == items[n]);
    reveal_with_fuel(pieces::join, 2);
}

proof fn as_many_fit(items: Seq<Seq<char>>, max: int, n: int, len: int)
    requires
        0 <= n <= items.len(),
        len == 4 + pieces::join(items.take(n), ", "@).len(),
    ensures
        ({
            let r = fitting_items(items, max, n, len);
            &&& n <= r <= items.len()
            &&& r > n ==> 4 + pieces::join(items.take(r), ", "@).len() + 18 <= max
            &&& r < items.len() ==> 4 + pieces::join(items.take(r + 1), ", "@).len() + 18 > max
        }),
    decreases items.len() - n,
{
    if n < items.len() {
        shown_length(items, n);
        let add = items[n].len() + if n == 0 {
            0int
        } else {
            2
        };
        if len + add + 18 <= max {
            as_many_fit(items, max, n + 1, len + add);
        }
    }
}

/// Items that fit are all shown. Of others as many are shown from the front as
/// leave room for the note, and the note tells how many are not shown.
pub proof fn as_many_as_fit_are_shown(items: Seq<Seq<char>>, max: int)
    requires
        items.len() > 0,
    ensures
        4 + pieces::join(items, ", "@).len() <= max ==> compact(items, max) == "{ "@ + pieces::join(
            items,
            ", "@,
        ) + " }"@,
        4 + pieces::join(items, ", "@).len() > max ==> exists|n: int|
            {
                &&& 0 <= n < items.len()
                &&& compact(items, max) == "{ "@ + #[trigger] pieces::join(items.take(n), ", "@)
                    + ", ... (+"@ + number::decimal((items.len() - n) as nat) + " more) }"@
                &&& n > 0 ==> 4 + pieces::join(items.take(n), ", "@).len() + 18 <= max
                &&& 4 + pieces::join(items.take(n + 1), ", "@).len() + 18 > max
            },
{
    reveal_strlit("{ ");
    reveal_strlit(" }");
    let all = pieces::join(items, ", "@);
    let full = "{ "@ + all + " }"@;
    assert(full.len() == all.len() + 4);
    assert(items.take(0) =~= Seq::empty());
    assert(pieces::join(items.take(0), ", "@) =~= Seq::empty());
    as_many_fit(items, max, 0, 4);
    let n = fitting_items(items, max, 0, 4);
    if 4 + all.len() > max {
        if n == items.len() {
            assert(items.take(n) =~= items);
        }
        assert(compact(items, max) == "{ "@ + pieces::join(items.take(n), ", "@) + ", ... (+"@
            + number::decimal((items.len() - n) as nat) + " more) }"@);
    }
}

/// The parts of a type are those of its body's nodes of the right kind, in
/// their order: each field with its type, each variant, each method.
pub proof fn parts_are_of_their_kind(ns: Seq<NodeView>, ks: Seq<int>)
    ensures
        struct_fields(ns, ks) == ks.filter(
            |k: int| ns[k].kind == "field_declaration"@,
        ).map_values(
            |k: int|
                (match text_in_role(ns, k, "name"@) {
                    Some(t) => t,
                    None => "?"@,
                }) + ": "@ + (match text_in_role(ns, k, "type"@) {
                    Some(t) => t,
                    None => "?"@,
                }),
        ),
        enum_variants(ns, ks) == ks.filter(|k: int| ns[k].kind == "enum_variant"@).map_values(
            |k: int| variant_text(ns, k),
        ),
        trait_methods(ns, ks) == ks.filter(
            |k: int|
                (ns[k].kind == "function_signature_item"@ || ns[k].kind == "function_item"@)
                    && text_in_role(ns, k, "name"@) is Some,
        ).map_values(|k: int| text_in_role(ns, k, "name"@)->0),
        variant_fields(ns, ks) == ks.filter(
            |k: int|
                ns[k].kind == "field_declaration"@ && text_in_role(ns, k, "name"@) is Some
                    && text_in_role(ns, k, "type"@) is Some,
        ).map_values(
            |k: int| text_in_role(ns, k, "name"@)->0 + ": "@ + text_in_role(ns, k, "type"@)->0,
        ),
        tuple_types(ns, ks) == ks.filter(
            |k: int|
                ns[k].kind != "("@ && ns[k].kind != ")"@ && ns[k].kind != ","@ && ns[k].kind
                    != "visibility_modifier"@ && ns[k].text is Some,
        ).map_values(|k: int| ns[k].text->0),
    decreases ks.len(),
{
    reveal(Seq::filter);
    if ks.len() > 0 {
        let t = ks.drop_last();
        let k = ks.last();
        parts_are_of_their_kind(ns, t);
        let p = punctuation();
        assert(p[0] == "("@ && p[1] == ")"@ && p[2] == ","@ && p[3] == "visibility_modifier"@);
        assert(p.contains(ns[k].kind) <==> ns[k].kind == "("@ || ns[k].kind == ")"@ || ns[k].kind
            == ","@ || ns[k].kind == "visibility_modifier"@);
        let name = |k: int| text_in_role(ns, k, "name"@)->0;
        let both = |k: int|
            text_in_role(ns, k, "name"@)->0 + ": "@ + text_in_role(ns, k, "type"@)->0;
        let marked = |k: int|
            (match text_in_role(ns, k, "name"@) {
                Some(t) => t,
                None => "?"@,
            }) + ": "@ + (match text_in_role(ns, k, "type"@) {
                Some(t) => t,
                None => "?"@,
            });
        let whole = |k: int| variant_text(ns, k);
        let kept = |k: int| ns[k].text->0;
        mapped_push(t.filter(|k: int| ns[k].kind == "field_declaration"@), k, marked);
        mapped_push(t.filter(|k: int| ns[k].kind == "enum_variant"@), k, whole);
        mapped_push(
            t.filter(
                |k: int|
                    (ns[k].kind == "function_signature_item"@ || ns[k].kind == "function_item"@)
                        && text_in_role(ns, k, "name"@) is Some,
            ),
            k,
            name,
        );
        mapped_push(
            t.filter(
                |k: int|
                    ns[k].kind == "field_declaration"@ && text_in_role(ns, k, "name"@) is Some
                        && text_in_role(ns, k, "type"@) is Some,
            ),
            k,
            both,
        );
        mapped_push(
            t.filter(
                |k: int|
                    ns[k].kind != "("@ && ns[k].kind != ")"@ && ns[k].kind != ","@ && ns[k].kind
                        != "visibility_modifier"@ && ns[k].text is Some,
            ),
            k,
            kept,
        );
    }
}

proof fn mapped_push(s: Seq<int>, k: int, f: spec_fn(int) -> Seq<char>)
    ensures
        s.push(k).map_values(f) == s.map_values(f).push(f(k)),
{
    assert(s.push(k).map_values(f) =~= s.map_values(f).push(f(k)));
}

/// A type is known by its name if and only if some node defines one of that
/// name, and what is shown of it is what such a node defines.
pub proof fn types_are_of_their_nodes(ns: Seq<NodeView>, n: int, name: Seq<char>)
    requires
        0 <= n <= ns.len(),
    ensures
        ({
            let m = types_upto(ns, n);
            &&& m.dom().contains(name) <==> exists|i: int|
                0 <= i < n && type_at(ns, i) is Some && ((#[trigger] type_at(ns, i))->0).0 == name
            &&& m.dom().contains(name) ==> 0 <= m[name].0 < n && type_at(ns, m[name].0) == Some(
                (name, m[name].1),
            )
        }),
    decreases n,
{
    if n > 0 {
        types_are_of_their_nodes(ns, n - 1, name);
        let m = types_upto(ns, n - 1);
        let r = types_upto(ns, n);
        if m.dom().contains(name) {
            let i = choose|i: int|
                0 <= i < n - 1 && type_at(ns, i) is Some && ((#[trigger] type_at(ns, i))->0).0 == name;
            assert((type_at(ns, i)->0).0 == name);
        }
        if r.dom().contains(name) && !m.dom().contains(name) {
            assert((type_at(ns, n - 1)->0).0 == name);
        }
    }
}

/// Of two types of one name the first is shown, where neither stands inside
/// the other.
pub proof fn first_type_is_shown(ns: Seq<NodeView>, n: int, i: int)
    requires
        0 <= i < n <= ns.len(),
        type_at(ns, i) is Some,
        forall|k: int|
            0 <= k < n && k != i && type_at(ns, k) is Some && ((#[trigger] type_at(ns, k))->0).0
                == (type_at(ns, i)->0).0 ==> i < k && !below(ns, i, k),
    ensures
        types_upto(ns, n).dom().contains((type_at(ns, i)->0).0),
        types_upto(ns, n)[(type_at(ns, i)->0).0] == (i, (type_at(ns, i)->0).1),
    decreases n,
{
    let name = (type_at(ns, i)->0).0;
    if n == i + 1 {
        types_are_of_their_nodes(ns, i, name);
    } else {
        first_type_is_shown(ns, n - 1, i);
        assert(type_at(ns, n - 1) is Some ==> (type_at(ns, n - 1)->0).0 != name || !below(
            ns,
            i,
            n - 1,
        ));
    }
}

/// The first child of a kind is a child of it, and none before it is.
pub proof fn child_of_kind_is_first(ns: Seq<NodeView>, ks: Seq<int>, kind: Seq<char>, a: int)
    requires
        0 <= a <= ks.len(),
        forall|b: int| 0 <= b < a ==> ns[#[trigger] ks[b]].kind != kind,
    ensures
        a == ks.len() ==> of_kind(ns, ks, kind) is None,
        a < ks.len() && ns[ks[a]].kind == kind ==> of_kind(ns, ks, kind) == Some(ks[a]),
    decreases ks.len(),
{
    if a > 0 {
        let t = ks.skip(1);
        assert forall|b: int| 0 <= b < a - 1 implies ns[#[trigger] t[b]].kind != kind by {
            assert(t[b] == ks[b + 1]);
        }
        child_of_kind_is_first(ns, t, kind, a - 1);
        assert(ns[ks[0]].kind != kind);
        if a < ks.len() {
            assert(t[a - 1] == ks[a]);
        }
    }
}

/// A struct is shown with its fields, an enum with its variants and a trait
/// with its methods, out of the body of each; one without any is not shown.
pub proof fn types_are_shown_with_their_parts(ns: Seq<NodeView>, i: int, name: Seq<char>, b: int)
    requires
        text_in_role(ns, i, "name"@) == Some(name),
    ensures
        ns[i].kind == "struct_item"@ && child_of_kind(ns, i, "field_declaration_list"@) == Some(b)
            ==> type_at(ns, i) == (if struct_fields(ns, kids(ns, b)).len() > 0 {
            Some((name, compact(struct_fields(ns, kids(ns, b)), usize::MAX as int)))
        } else {
            None
        }),
        ns[i].kind == "enum_item"@ && child_of_kind(ns, i, "enum_variant_list"@) == Some(b) ==> type_at(
            ns,
            i,
        ) == (if enum_variants(ns, kids(ns, b)).len() > 0 {
            Some((name, compact(enum_variants(ns, kids(ns, b)), usize::MAX as int)))
        } else {
            None
        }),
        ns[i].kind == "trait_item"@ && child_of_kind(ns, i, "declaration_list"@) == Some(b)
            ==> type_at(ns, i) == (if trait_methods(ns, kids(ns, b)).len() > 0 {
            Some(
                (name, "trait { "@ + pieces::join(trait_methods(ns, kids(ns, b)), ", "@) + " }"@),
            )
        } else {
            None
        }),
        ns[i].kind != "struct_item"@ && ns[i].kind != "enum_item"@ && ns[i].kind != "trait_item"@
            ==> type_at(ns, i) is None,
{
    kinds_differ();
}

/// Only a type of the file gets the signature of its name; nothing else of a
/// symbol changes.
pub proof fn signatures_go_to_their_types(
    s: SymbolView,
    file: Seq<char>,
    signatures: Map<Seq<char>, Seq<char>>,
)
    ensures
        ({
            let r = with_signature(s, file, signatures);
            let ty = s.kind == SymbolKind::Struct || s.kind == SymbolKind::Enum || s.kind
                == SymbolKind::Trait;
            &&& s.file == file && ty && signatures.dom().contains(s.name) ==> r.signature == Some(
                signatures[s.name],
            )
            &&& s.file != file || !ty || !signatures.dom().contains(s.name) ==> r.signature
                == s.signature
            &&& r.name == s.name && r.file == s.file && r.line == s.line && r.end_line == s.end_line
                && r.kind == s.kind
        }),
{
}

} // verus!
