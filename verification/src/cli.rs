//! What the command line shows.

use crate::config::{ConfigFile, Profile};
use crate::names::NameMap;
use crate::number;
use crate::number::decimal_of;
use crate::order;
use crate::order::sort_texts;
use crate::text;
use crate::text::same;
use vstd::prelude::*;

verus! {

broadcast use crate::text::views_push;

/// The shells that completions are made for.
#[derive(Debug, PartialEq, Eq, Clone, Copy, Structural)]
pub enum ShellKind {
    Bash,
    Zsh,
    Fish,
    Elvish,
}

/// The shell of a name, whatever its case.
pub open spec fn shell_named(name: Seq<char>) -> Option<ShellKind> {
    let n = text::lowercase(name);
    if n == "bash"@ {
        Some(ShellKind::Bash)
    } else if n == "zsh"@ {
        Some(ShellKind::Zsh)
    } else if n == "fish"@ {
        Some(ShellKind::Fish)
    } else if n == "elvish"@ {
        Some(ShellKind::Elvish)
    } else {
        None
    }
}

/// The shell of a name in lower case.
pub fn shell_of_lower(n: &str) -> (r: Option<ShellKind>)
    ensures
        r == (if n@ == "bash"@ {
            Some(ShellKind::Bash)
        } else if n@ == "zsh"@ {
            Some(ShellKind::Zsh)
        } else if n@ == "fish"@ {
            Some(ShellKind::Fish)
        } else if n@ == "elvish"@ {
            Some(ShellKind::Elvish)
        } else {
            None
        }),
{
    if same(n, "bash") {
        Some(ShellKind::Bash)
    } else if same(n, "zsh") {
        Some(ShellKind::Zsh)
    } else if same(n, "fish") {
        Some(ShellKind::Fish)
    } else if same(n, "elvish") {
        Some(ShellKind::Elvish)
    } else {
        None
    }
}

/// The shell of a name, whatever its case.
pub fn shell_of(name: &str) -> (r: Option<ShellKind>)
    ensures
        r == shell_named(name@),
{
    let n = name.to_lowercase();
    shell_of_lower(n.as_str())
}

/// What is shown of one profile.
pub open spec fn profile_lines<C>(name: Seq<char>, p: Profile<C>, default: Seq<char>) -> Seq<char> {
    "  "@ + name + (if name == default {
        " ←"@
    } else {
        Seq::empty()
    }) + "\n    endpoint  "@ + p.endpoint@ + "\n    model     "@ + p.model@ + "\n    context   "@
        + number::decimal((p.context_tokens / 1000) as nat) + "k\n\n"@
}

pub open spec fn profiles_lines<C>(
    names: Seq<Seq<char>>,
    profiles: Map<Seq<char>, Profile<C>>,
    default: Seq<char>,
) -> Seq<char>
    decreases names.len(),
{
    if names.len() == 0 {
        Seq::empty()
    } else {
        profiles_lines(names.drop_last(), profiles, default) + profile_lines(
            names.last(),
            profiles[names.last()],
            default,
        )
    }
}

/// The list of profiles, in the order of their names, with the default one
/// marked.
pub open spec fn profiles_text<C>(file: ConfigFile<C>) -> Seq<char> {
    "\n  Profiles\n"@ + profiles_lines(
        order::sorted_by(file.profiles.names(), order::by_chars()),
        file.profiles@,
        file.default_profile@,
    )
}

fn sorted_names<V>(m: &NameMap<V>) -> (r: Vec<String>)
    ensures
        text::views(r@) == order::sorted_by(m.names(), order::by_chars()),
        forall|i: int| 0 <= i < r@.len() ==> m@.dom().contains((#[trigger] r@[i])@),
{
    let total: usize = m.len();
    let mut out: Vec<String> = Vec::new();
    let mut i: usize = 0;
    while i < total
        invariant
            i <= total,
            total == m.names().len(),
            out.len() == i,
            forall|k: int| 0 <= k < i ==> (#[trigger] out@[k])@ == m.names()[k],
            forall|k: int| 0 <= k < i ==> m@.dom().contains((#[trigger] out@[k])@),
        decreases total - i,
    {
        out.push(m.key_at(i).clone());
        i += 1;
    }
    let ghost before = out@;
    assert(text::views(before) =~= m.names());
    sort_texts(&mut out);
    proof {
        order::sorted_texts(before);
        let f = |s: String| s@;
        let p = |s: String| m@.dom().contains(s@);
        order::sorted_map(before, p, f, order::by_text(), order::by_chars());
        assert forall|i: int| 0 <= i < out@.len() implies m@.dom().contains(
            (#[trigger] out@[i])@,
        ) by {
            assert(p(order::sorted_by(before, order::by_text())[i]));
        }
    }
    out
}

/// The list of profiles.
pub fn print_profiles<C>(file: &ConfigFile<C>) -> (r: String)
    ensures
        r@ == profiles_text(*file),
{
    let names = sorted_names(&file.profiles);
    let ghost nv = text::views(names@);
    let ghost pm = file.profiles@;
    let ghost d = file.default_profile@;
    let ghost head = "\n  Profiles\n"@;
    let mut out = "\n  Profiles\n".to_owned();
    let mut i: usize = 0;
    assert(nv.take(0) =~= Seq::<Seq<char>>::empty());
    assert(head + Seq::<char>::empty() =~= head);
    while i < names.len()
        invariant
            i <= names.len(),
            nv == text::views(names@),
            pm == file.profiles@,
            d == file.default_profile@,
            forall|k: int| 0 <= k < names@.len() ==> pm.dom().contains((#[trigger] names@[k])@),
            out@ == head + profiles_lines(nv.take(i as int), pm, d),
        decreases names.len() - i,
    {
        let ghost before = out@;
        assert(nv.take(i + 1).drop_last() =~= nv.take(i as int));
        assert(nv.take(i + 1).last() == names@[i as int]@);
        assert(pm.dom().contains(names@[i as int]@));
        if let Some(p) = file.profiles.get(names[i].as_str()) {
            let mut mark = String::new();
            if same(names[i].as_str(), file.default_profile.as_str()) {
                mark.append(" ←");
                assert(mark@ =~= " ←"@);
            }
            out.append("  ");
            out.append(names[i].as_str());
            out.append(mark.as_str());
            out.append("\n    endpoint  ");
            out.append(p.endpoint.as_str());
            out.append("\n    model     ");
            out.append(p.model.as_str());
            out.append("\n    context   ");
            out.append(decimal_of((p.context_tokens / 1000) as u64).as_str());
            out.append("k\n\n");
            assert(out@ =~= before + profile_lines(names@[i as int]@, *p, d));
        }
        assert(out@ =~= head + profiles_lines(nv.take(i + 1), pm, d));
        i += 1;
    }
    assert(nv.take(i as int) =~= nv);
    out
}

} // verus!
