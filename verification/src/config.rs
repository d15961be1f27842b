//! Settings: what the file says, and what a run goes by.

use crate::hooks;
use crate::hooks::{HookConfig, HookView};
use crate::names::NameMap;
use crate::order;
use crate::order::sort_texts;
use crate::paths;
use crate::paths::path_below;
use crate::pie;
use crate::pieces;
use crate::pieces::lines_of;
use crate::sessions;
use crate::text;
use crate::text::{begins_with, count, cut, finishes_with, strip_prefix, trim_front_by, trimmed, CharSet};
use vstd::prelude::*;

verus! {

broadcast use crate::text::views_push;

// ── Servers of tools ─────────────────────────────────────────────────────────

/// How a server of tools is started.
#[derive(Debug)]
pub struct McpServerConfig {
    /// Stands before the names of its tools.
    pub name: String,
    /// The command with its arguments.
    pub command: Vec<String>,
    /// What is set in its environment.
    pub env: NameMap<String>,
}

/// What a `McpServerConfig` says.
#[verifier::ext_equal]
pub struct ServerView {
    pub name: Seq<char>,
    pub command: Seq<Seq<char>>,
    pub env: Map<Seq<char>, Seq<char>>,
}

impl View for McpServerConfig {
    type V = ServerView;

    open spec fn view(&self) -> ServerView {
        ServerView {
            name: self.name@,
            command: text::views(self.command@),
            env: pie::text_map(self.env@),
        }
    }
}

pub open spec fn server_views(v: Seq<McpServerConfig>) -> Seq<ServerView> {
    Seq::new(v.len(), |i: int| v[i]@)
}

fn clone_env(m: &NameMap<String>) -> (r: NameMap<String>)
    ensures
        pie::text_map(r@) == pie::text_map(m@),
{
    let total: usize = m.len();
    let ghost keys = m.names();
    let mut out: NameMap<String> = NameMap::new();
    let mut i: usize = 0;
    while i < total
        invariant
            i <= total,
            total == keys.len(),
            keys == m.names(),
            m.keyed(),
            forall|k: Seq<char>|
                #[trigger] out@.dom().contains(k) <==> keys.take(i as int).contains(k),
            forall|k: Seq<char>| #[trigger] out@.dom().contains(k) ==> out@[k]@ == m@[k]@,
        decreases total - i,
    {
        let key = m.key_at(i);
        let value = m.value_at(i);
        proof {
            taken_with_next(keys, i as int);
        }
        out.insert(key.clone(), value.clone());
        i += 1;
    }
    assert(keys.take(i as int) =~= keys);
    assert forall|k: Seq<char>| out@.dom().contains(k) == m@.dom().contains(k) by {
        assert(m@.dom().contains(k) == keys.contains(k));
    }
    assert(pie::text_map(out@) =~= pie::text_map(m@));
    out
}

proof fn taken_with_next(keys: Seq<Seq<char>>, i: int)
    requires
        0 <= i < keys.len(),
    ensures
        forall|k: Seq<char>| #[trigger]
            keys.take(i + 1).contains(k) <==> keys.take(i).contains(k) || k == keys[i],
{
    let seen = keys.take(i);
    let more = keys.take(i + 1);
    assert forall|k: Seq<char>| #[trigger] more.contains(k) == (seen.contains(k) || k
        == keys[i]) by {
        if seen.contains(k) {
            let x = seen.index_of(k);
            assert(more[x] == k);
        }
        if k == keys[i] {
            assert(more[i] == k);
        }
        if more.contains(k) {
            let x = more.index_of(k);
            if x < i {
                assert(seen[x] == k);
            }
        }
    }
}

impl Clone for McpServerConfig {
    fn clone(&self) -> (r: Self)
        ensures
            r@ == self@,
    {
        McpServerConfig {
            name: self.name.clone(),
            command: clone_texts(&self.command),
            env: clone_env(&self.env),
        }
    }
}

pub(crate) fn clone_texts(v: &Vec<String>) -> (r: Vec<String>)
    ensures
        text::views(r@) == text::views(v@),
{
    let mut out: Vec<String> = Vec::new();
    let mut i: usize = 0;
    while i < v.len()
        invariant
            i <= v.len(),
            out.len() == i,
            forall|k: int| 0 <= k < i ==> (#[trigger] out@[k])@ == v@[k]@,
        decreases v.len() - i,
    {
        out.push(v[i].clone());
        i += 1;
    }
    assert(text::views(out@) =~= text::views(v@));
    out
}

fn clone_servers(v: &Vec<McpServerConfig>) -> (r: Vec<McpServerConfig>)
    ensures
        server_views(r@) == server_views(v@),
{
    let mut out: Vec<McpServerConfig> = Vec::new();
    let mut i: usize = 0;
    while i < v.len()
        invariant
            i <= v.len(),
            out.len() == i,
            forall|k: int| 0 <= k < i ==> (#[trigger] out@[k])@ == v@[k]@,
        decreases v.len() - i,
    {
        out.push(v[i].clone());
        i += 1;
    }
    assert(server_views(out@) =~= server_views(v@));
    out
}

fn clone_opt(o: &Option<String>) -> (r: Option<String>)
    ensures
        text::opt_text(r) == text::opt_text(*o),
{
    match o {
        Some(s) => Some(s.clone()),
        None => None,
    }
}

// ── Profiles ─────────────────────────────────────────────────────────────────

/// A model and how to work with it. `C` is the type of a price.
#[derive(Debug)]
pub struct Profile<C> {
    pub endpoint: String,
    pub model: String,
    /// The size of the model's context in tokens.
    pub context_tokens: u32,
    pub api_key: Option<String>,
    /// Another model that plans.
    pub planner_model: Option<String>,
    pub mcp_servers: Vec<McpServerConfig>,
    /// The price of a million input tokens.
    pub cost_per_mtok_input: Option<C>,
    pub hooks: HookConfig,
    pub hooks_disabled: bool,
    /// Whether all changes are committed after a task.
    pub auto_commit: bool,
    /// Stands before the messages of such commits.
    pub auto_commit_prefix: String,
    /// Whether the state of the repository is looked at.
    pub git_context: bool,
}

/// What a `Profile` says.
#[verifier::ext_equal]
pub struct ProfileView<C> {
    pub endpoint: Seq<char>,
    pub model: Seq<char>,
    pub context_tokens: u32,
    pub api_key: Option<Seq<char>>,
    pub planner_model: Option<Seq<char>>,
    pub mcp_servers: Seq<ServerView>,
    pub cost_per_mtok_input: Option<C>,
    pub hooks: HookView,
    pub hooks_disabled: bool,
    pub auto_commit: bool,
    pub auto_commit_prefix: Seq<char>,
    pub git_context: bool,
}

impl<C> View for Profile<C> {
    type V = ProfileView<C>;

    open spec fn view(&self) -> ProfileView<C> {
        ProfileView {
            endpoint: self.endpoint@,
            model: self.model@,
            context_tokens: self.context_tokens,
            api_key: text::opt_text(self.api_key),
            planner_model: text::opt_text(self.planner_model),
            mcp_servers: server_views(self.mcp_servers@),
            cost_per_mtok_input: self.cost_per_mtok_input,
            hooks: self.hooks@,
            hooks_disabled: self.hooks_disabled,
            auto_commit: self.auto_commit,
            auto_commit_prefix: self.auto_commit_prefix@,
            git_context: self.git_context,
        }
    }
}

pub fn default_context_tokens() -> (r: u32)
    ensures
        r == 32768,
{
    32768
}

pub fn default_auto_commit_prefix() -> (r: String)
    ensures
        r@ == "parecode: "@,
{
    "parecode: ".to_owned()
}

pub fn default_git_context() -> (r: bool)
    ensures
        r,
{
    true
}

pub fn default_profile_name() -> (r: String)
    ensures
        r@ == "default"@,
{
    "default".to_owned()
}

pub open spec fn no_hooks() -> HookView {
    HookView {
        on_edit: Seq::empty(),
        on_task_done: Seq::empty(),
        on_plan_step_done: Seq::empty(),
        on_session_start: Seq::empty(),
        on_session_end: Seq::empty(),
    }
}

/// The profile that counts where the file has none.
pub open spec fn built_in<C>() -> ProfileView<C> {
    ProfileView {
        endpoint: "http://localhost:11434/v1/chat/completions"@,
        model: "qwen3:14b"@,
        context_tokens: 32768,
        api_key: None,
        planner_model: None,
        mcp_servers: Seq::empty(),
        cost_per_mtok_input: None,
        hooks: no_hooks(),
        hooks_disabled: false,
        auto_commit: false,
        auto_commit_prefix: "parecode: "@,
        git_context: true,
    }
}

impl<C> Default for Profile<C> {
    fn default() -> (r: Self)
        ensures
            r@ == built_in::<C>(),
    {
        let r = Profile {
            endpoint: "http://localhost:11434/v1/chat/completions".to_owned(),
            model: "qwen3:14b".to_owned(),
            context_tokens: default_context_tokens(),
            api_key: None,
            planner_model: None,
            mcp_servers: Vec::new(),
            cost_per_mtok_input: None,
            hooks: HookConfig::default(),
            hooks_disabled: false,
            auto_commit: false,
            auto_commit_prefix: default_auto_commit_prefix(),
            git_context: default_git_context(),
        };
        assert(server_views(r.mcp_servers@) =~= Seq::<ServerView>::empty());
        r
    }
}

impl<C: Copy> Clone for Profile<C> {
    fn clone(&self) -> (r: Self)
        ensures
            r@ == self@,
    {
        Profile {
            endpoint: self.endpoint.clone(),
            model: self.model.clone(),
            context_tokens: self.context_tokens,
            api_key: clone_opt(&self.api_key),
            planner_model: clone_opt(&self.planner_model),
            mcp_servers: clone_servers(&self.mcp_servers),
            cost_per_mtok_input: self.cost_per_mtok_input,
            hooks: self.hooks.clone(),
            hooks_disabled: self.hooks_disabled,
            auto_commit: self.auto_commit,
            auto_commit_prefix: self.auto_commit_prefix.clone(),
            git_context: self.git_context,
        }
    }
}

// ── The file ─────────────────────────────────────────────────────────────────

/// The settings file.
#[derive(Debug)]
pub struct ConfigFile<C> {
    /// The profile that counts where none is asked for.
    pub default_profile: String,
    pub profiles: NameMap<Profile<C>>,
    /// Sets of hooks, by name.
    pub hooks: NameMap<HookConfig>,
    /// The set that is active.
    pub active_hooks: Option<String>,
}

impl<C> Default for ConfigFile<C> {
    fn default() -> (r: Self)
        ensures
            r.default_profile@ == Seq::<char>::empty(),
            r.profiles@ == Map::<Seq<char>, Profile<C>>::empty(),
            r.hooks@ == Map::<Seq<char>, HookConfig>::empty(),
            r.active_hooks is None,
    {
        ConfigFile {
            default_profile: String::new(),
            profiles: NameMap::new(),
            hooks: NameMap::new(),
            active_hooks: None,
        }
    }
}

/// The name that a line gives the active hooks.
pub open spec fn active_in_line(line: Seq<char>) -> Option<Seq<char>> {
    match text::behind(text::trim(line), "active_hooks"@) {
        Some(rest) => {
            let t = text::trim(text::trim_start_set(rest, CharSet::OneOf(" =")));
            if t.len() > 1 && text::begins(t, "\""@) && text::ends(t, "\""@) {
                Some(t.subrange(1, t.len() - 1))
            } else {
                None
            }
        },
        None => None,
    }
}

/// The first name that the lines give the active hooks.
pub open spec fn active_in(ls: Seq<Seq<char>>) -> Option<Seq<char>>
    decreases ls.len(),
{
    if ls.len() == 0 {
        None
    } else {
        match active_in_line(ls[0]) {
            Some(n) => Some(n),
            None => active_in(ls.skip(1)),
        }
    }
}

proof fn active_apart(a: Seq<Seq<char>>, b: Seq<Seq<char>>)
    ensures
        active_in(a + b) == (match active_in(a) {
            Some(n) => Some(n),
            None => active_in(b),
        }),
    decreases a.len(),
{
    if a.len() == 0 {
        assert(a + b =~= b);
    } else {
        active_apart(a.skip(1), b);
        assert((a + b).skip(1) =~= a.skip(1) + b);
    }
}

proof fn blank_sets_nothing()
    ensures
        active_in_line(Seq::empty()) is None,
{
    reveal_strlit("active_hooks");
}

proof fn active_in_text(ls: Seq<Seq<char>>, end: Seq<char>)
    requires
        forall|i: int| 0 <= i < ls.len() ==> !(#[trigger] ls[i]).contains('\n'),
        end == Seq::<char>::empty() || end == "\n"@,
    ensures
        active_in(pieces::lines(pieces::join(ls, "\n"@) + end)) == active_in(ls),
    decreases ls.len(),
{
    reveal_with_fuel(active_in, 3);
    blank_sets_nothing();
    reveal_strlit("\n");
    let none = Seq::<Seq<char>>::empty();
    let blank = Seq::<char>::empty();
    assert(pieces::lines(blank) =~= none);
    if ls.len() == 0 {
        if end == "\n"@ {
            assert(blank + end =~= blank + "\n"@ + blank);
            pieces::lines_in_front(blank, blank);
            assert(pieces::lines(blank + end) =~= seq![blank]);
            assert(seq![blank].skip(1) =~= none);
        } else {
            assert(blank + end =~= blank);
        }
    } else {
        let line = ls[0];
        assert(!line.contains('\n'));
        assert(active_in_line(pieces::chomp(line)) == active_in_line(line)) by {
            if line.len() > 0 && line.last() == '\r' {
                text::trim_drops_white(line.drop_last(), '\r');
                assert(line.drop_last().push('\r') =~= line);
            }
        }
        if ls.len() == 1 {
            assert(ls.skip(1) =~= none);
            if end == "\n"@ {
                assert(line + end =~= line + "\n"@ + blank);
                pieces::lines_in_front(line, blank);
                assert(pieces::lines(line + end) =~= seq![pieces::chomp(line)]);
                assert(seq![pieces::chomp(line)].skip(1) =~= none);
            } else {
                assert(line + end =~= line);
                if line.len() > 0 {
                    pieces::lines_of_one(line);
                    assert(seq![line].skip(1) =~= none);
                } else {
                    assert(line =~= blank);
                }
            }
        } else {
            let rest = ls.skip(1);
            assert forall|i: int| 0 <= i < rest.len() implies !(#[trigger] rest[i]).contains(
                '\n',
            ) by {
                assert(rest[i] == ls[i + 1]);
            }
            active_in_text(rest, end);
            pieces::join_in_front(ls, "\n"@);
            let tail = pieces::join(rest, "\n"@) + end;
            assert(pieces::join(ls, "\n"@) + end =~= line + "\n"@ + tail);
            pieces::lines_in_front(line, tail);
            let all = seq![pieces::chomp(line)] + pieces::lines(tail);
            assert(all.skip(1) =~= pieces::lines(tail));
        }
    }
}

proof fn removed_sets_nothing(ls: Seq<Seq<char>>)
    ensures
        active_in(hooks::without_active(ls)) is None,
        forall|i: int|
            0 <= i < hooks::without_active(ls).len() ==> ls.contains(
                #[trigger] hooks::without_active(ls)[i],
            ),
    decreases ls.len(),
{
    reveal_with_fuel(active_in, 3);
    let kept = hooks::without_active(ls);
    if ls.len() > 0 {
        let line = ls.last();
        let before = hooks::without_active(ls.drop_last());
        removed_sets_nothing(ls.drop_last());
        if !hooks::sets_active(line) {
            active_apart(before, seq![line]);
            assert(before.push(line) =~= before + seq![line]);
            assert(seq![line].skip(1) =~= Seq::<Seq<char>>::empty());
            assert(active_in_line(line) is None) by {
                let t = text::trim_start_set(line, CharSet::White);
                text::trail_bound(t, CharSet::White);
                let p = "active_hooks"@;
                if text::begins(text::trim(line), p) {
                    assert(t.subrange(0, p.len() as int) =~= text::trim(line).subrange(
                        0,
                        p.len() as int,
                    ));
                    assert(text::begins(t, p));
                }
            }
        }
        assert forall|i: int| 0 <= i < kept.len() implies ls.contains(#[trigger] kept[i]) by {
            if i < before.len() {
                assert(kept[i] == before[i]);
                let k = ls.drop_last().index_of(before[i]);
                assert(ls[k] == before[i]);
            } else {
                assert(ls[ls.len() - 1] == line);
            }
        }
    }
}

proof fn line_sets_its_name(name: Seq<char>)
    ensures
        active_in_line(hooks::active_line(name)) == Some(name),
{
    reveal_strlit("active_hooks");
    reveal_strlit("active_hooks = \"");
    reveal_strlit("\"");
    reveal_strlit(" =");
    let line = hooks::active_line(name);
    let n = line.len() as int;
    assert(line[0] == 'a' && !text::is_white('a'));
    assert(line.last() == '"' && !text::is_white('"'));
    assert(line.skip(0) =~= line && line.take(n) =~= line);
    assert(text::trim(line) =~= line);
    let rest = line.skip(12);
    assert(line.subrange(0, 12) =~= "active_hooks"@);
    let set = CharSet::OneOf(" =");
    assert(" ="@[0] == ' ' && " ="@[1] == '=');
    text::lead_bound(rest, set, true);
    assert(rest[0] == ' ' && rest[1] == '=' && rest[2] == ' ' && rest[3] == '"');
    assert(text::lead(rest, set, true) == 3) by {
        let m = text::lead(rest, set, true);
        assert(!" ="@.contains('"'));
        if m < 3 {
            assert(text::in_set(set, rest[m as int]));
        }
        if m > 3 {
            assert(text::in_set(set, rest[3]));
        }
    }
    let t = rest.skip(3);
    assert(t[0] == '"' && t.last() == '"');
    assert(t.skip(0) =~= t && t.take(t.len() as int) =~= t);
    assert(text::trim(t) =~= t);
    assert(t.subrange(0, 1) =~= "\""@);
    assert(t.subrange(t.len() - 1, t.len() as int) =~= "\""@);
    assert(t.subrange(1, t.len() - 1) =~= name);
}

/// The hooks that the settings name as active are found there again, and
/// none are where none are named.
pub proof fn active_is_found(existing: Seq<char>, name: Option<Seq<char>>)
    requires
        name matches Some(n) ==> !n.contains('\n'),
    ensures
        active_in(pieces::lines(hooks::with_active(existing, name))) == name,
{
    reveal_with_fuel(active_in, 3);
    let all = pieces::lines(existing);
    let ls = hooks::without_active(all);
    removed_sets_nothing(all);
    blank_sets_nothing();
    let new = match name {
        Some(n) => hooks::placed(ls, hooks::active_line(n)),
        None => ls,
    };
    assert forall|i: int| 0 <= i < ls.len() implies !(#[trigger] ls[i]).contains('\n') by {
        pieces::lines_are_unbroken(existing, all.index_of(ls[i]));
    }
    if let Some(n) = name {
        let line = hooks::active_line(n);
        let blank = Seq::<char>::empty();
        line_sets_its_name(n);
        assert(!line.contains('\n')) by {
            reveal_strlit("active_hooks = \"");
            reveal_strlit("\"");
            if line.contains('\n') {
                let k = line.index_of('\n');
                if 16 <= k < 16 + n.len() {
                    assert(n[k - 16] == '\n');
                }
            }
        }
        let at = hooks::before_sections(ls) as int;
        if at < ls.len() {
            let two = seq![line, blank];
            active_apart(ls.take(at), ls.skip(at));
            assert(ls.take(at) + ls.skip(at) =~= ls);
            active_apart(ls.take(at), two);
            active_apart(ls.take(at) + two, ls.skip(at));
        } else {
            let two = seq![blank, line];
            assert(two.skip(1) =~= seq![line]);
            active_apart(ls, two);
        }
    }
    active_in_text(
        new,
        if text::ends(existing, "\n"@) {
            "\n"@
        } else {
            Seq::empty()
        },
    );
}

fn read_active(line: &str) -> (r: Option<String>)
    ensures
        text::opt_text(r) == active_in_line(line@),
{
    match strip_prefix(trimmed(line).as_str(), "active_hooks") {
        Some(rest) => {
            let t = trimmed(trim_front_by(rest.as_str(), CharSet::OneOf(" =")).as_str());
            let n: usize = count(t.as_str());
            if n > 1 && begins_with(t.as_str(), "\"") && finishes_with(t.as_str(), "\"") {
                Some(cut(t.as_str(), 1, n - 1))
            } else {
                None
            }
        },
        None => None,
    }
}

/// The active hooks as the file's text sets them, wherever the line stands.
pub fn find_active_hooks(raw: &str) -> (r: Option<String>)
    ensures
        text::opt_text(r) == active_in(pieces::lines(raw@)),
{
    let ls = lines_of(raw);
    let ghost lv = text::views(ls@);
    let mut i: usize = 0;
    assert(lv.skip(0) =~= lv);
    while i < ls.len()
        invariant
            i <= ls.len(),
            lv == text::views(ls@),
            active_in(lv) == active_in(lv.skip(i as int)),
            lv == pieces::lines(raw@),
        decreases ls.len() - i,
    {
        assert(lv.skip(i as int)[0] == ls@[i as int]@);
        assert(lv.skip(i as int).skip(1) =~= lv.skip(i + 1));
        match read_active(ls[i].as_str()) {
            Some(n) => {
                return Some(n);
            },
            None => {},
        }
        i += 1;
    }
    None
}

impl<C> ConfigFile<C> {
    /// The file once it is parsed: the active hooks count wherever their line
    /// stands in the text.
    pub fn load(parsed: ConfigFile<C>, raw: &str) -> (r: ConfigFile<C>)
        ensures
            r.default_profile == parsed.default_profile,
            r.profiles == parsed.profiles,
            r.hooks == parsed.hooks,
            text::opt_text(r.active_hooks) == (match parsed.active_hooks {
                Some(n) => Some(n@),
                None => active_in(pieces::lines(raw@)),
            }),
    {
        let mut cfg = parsed;
        if cfg.active_hooks.is_none() {
            cfg.active_hooks = find_active_hooks(raw);
        }
        cfg
    }

    /// The name of the profile that is meant.
    pub open spec fn profile_key(&self, name: Option<&str>) -> Seq<char> {
        match name {
            Some(n) => n@,
            None => self.default_profile@,
        }
    }

    /// The profile that is meant, if the file has it.
    pub fn resolve_profile(&self, name: Option<&str>) -> (r: Option<&Profile<C>>)
        ensures
            match r {
                Some(p) => self.profiles@.dom().contains(self.profile_key(name)) && *p
                    == self.profiles@[self.profile_key(name)],
                None => !self.profiles@.dom().contains(self.profile_key(name)),
            },
    {
        let key = match name {
            Some(n) => n,
            None => self.default_profile.as_str(),
        };
        self.profiles.get(key)
    }

    /// What the profile that is meant says, or the built-in one.
    pub open spec fn base(&self, name: Option<&str>) -> ProfileView<C> {
        if self.profiles@.dom().contains(self.profile_key(name)) {
            self.profiles@[self.profile_key(name)]@
        } else {
            built_in()
        }
    }

    /// What the active set of hooks says, if it exists.
    pub open spec fn active_set(&self) -> HookView {
        match self.active_hooks {
            Some(n) => if self.hooks@.dom().contains(n@) {
                self.hooks@[n@]@
            } else {
                no_hooks()
            },
            None => no_hooks(),
        }
    }
}

// ── What a run goes by ───────────────────────────────────────────────────────

/// The settings of a run.
#[derive(Debug)]
pub struct ResolvedConfig<C> {
    pub endpoint: String,
    pub model: String,
    pub context_tokens: u32,
    pub api_key: Option<String>,
    pub profile_name: String,
    pub planner_model: Option<String>,
    pub mcp_servers: Vec<McpServerConfig>,
    pub cost_per_mtok_input: Option<C>,
    pub hooks: HookConfig,
    pub hooks_disabled: bool,
    pub auto_commit: bool,
    pub auto_commit_prefix: String,
    pub git_context: bool,
    /// The sets of hooks that the file has.
    pub available_hooks: Vec<String>,
    pub active_hooks: Option<String>,
    pub active_hook_config: HookConfig,
}

/// `a`, or else `b`.
pub open spec fn or_else(a: Option<&str>, b: Seq<char>) -> Seq<char> {
    match a {
        Some(s) => s@,
        None => b,
    }
}

fn given_or(a: Option<&str>, b: String) -> (r: String)
    ensures
        r@ == or_else(a, b@),
{
    match a {
        Some(s) => s.to_owned(),
        None => b,
    }
}

impl<C: Copy> ResolvedConfig<C> {
    /// The settings of a run. What is given here counts before the profile,
    /// and the profile before what is built in.
    pub fn resolve(
        file: &ConfigFile<C>,
        profile_override: Option<&str>,
        endpoint_override: Option<&str>,
        model_override: Option<&str>,
        api_key_override: Option<&str>,
    ) -> (r: Self)
        ensures
            ({
                let base = file.base(profile_override);
                &&& r.profile_name@ == file.profile_key(profile_override)
                &&& r.endpoint@ == or_else(endpoint_override, base.endpoint)
                &&& r.model@ == or_else(model_override, base.model)
                &&& text::opt_text(r.api_key) == (match api_key_override {
                    Some(k) => Some(k@),
                    None => base.api_key,
                })
                &&& r.context_tokens == base.context_tokens
                &&& text::opt_text(r.planner_model) == base.planner_model
                &&& server_views(r.mcp_servers@) == base.mcp_servers
                &&& r.cost_per_mtok_input == base.cost_per_mtok_input
                &&& r.hooks@ == base.hooks
                &&& r.hooks_disabled == base.hooks_disabled
                &&& r.auto_commit == base.auto_commit
                &&& r.auto_commit_prefix@ == base.auto_commit_prefix
                &&& r.git_context == base.git_context
                &&& text::views(r.available_hooks@) == order::sorted_by(
                    file.hooks.names(),
                    order::by_chars(),
                )
                &&& text::opt_text(r.active_hooks) == text::opt_text(file.active_hooks)
                &&& r.active_hook_config@ == file.active_set()
            }),
    {
        let profile_name = given_or(profile_override, file.default_profile.clone());
        let base = match file.resolve_profile(profile_override) {
            Some(p) => p.clone(),
            None => Profile::default(),
        };
        let mut available: Vec<String> = Vec::new();
        let total: usize = file.hooks.len();
        let mut i: usize = 0;
        while i < total
            invariant
                i <= total,
                total == file.hooks.names().len(),
                available.len() == i,
                forall|k: int| 0 <= k < i ==> (#[trigger] available@[k])@ == file.hooks.names()[k],
            decreases total - i,
        {
            available.push(file.hooks.key_at(i).clone());
            i += 1;
        }
        assert(text::views(available@) =~= file.hooks.names());
        proof {
            order::sorted_texts(available@);
        }
        sort_texts(&mut available);
        let active_hook_config = match &file.active_hooks {
            Some(n) => match file.hooks.get(n.as_str()) {
                Some(h) => h.clone(),
                None => HookConfig::default(),
            },
            None => HookConfig::default(),
        };
        let api_key = match api_key_override {
            Some(k) => Some(k.to_owned()),
            None => base.api_key,
        };
        ResolvedConfig {
            endpoint: given_or(endpoint_override, base.endpoint),
            model: given_or(model_override, base.model),
            context_tokens: base.context_tokens,
            api_key,
            profile_name,
            planner_model: base.planner_model,
            mcp_servers: base.mcp_servers,
            cost_per_mtok_input: base.cost_per_mtok_input,
            hooks: base.hooks,
            hooks_disabled: base.hooks_disabled,
            auto_commit: base.auto_commit,
            auto_commit_prefix: base.auto_commit_prefix,
            git_context: base.git_context,
            available_hooks: available,
            active_hooks: clone_opt(&file.active_hooks),
            active_hook_config,
        }
    }
}

// ── Where the file lies ──────────────────────────────────────────────────────

/// The directory of settings, if one is known.
pub open spec fn config_dir(xdg: Option<Seq<char>>, home: Option<Seq<char>>) -> Option<Seq<char>> {
    match (xdg, home) {
        (Some(x), _) => Some(x),
        (None, Some(h)) => Some(paths::below(h, ".config"@)),
        (None, None) => None,
    }
}

/// The directory of settings, from `XDG_CONFIG_HOME` and `HOME`.
pub fn dirs_config_dir(xdg: Option<&str>, home: Option<&str>) -> (r: Option<String>)
    ensures
        text::opt_text(r) == config_dir(sessions::opt_str(xdg), sessions::opt_str(home)),
{
    match xdg {
        Some(x) => Some(x.to_owned()),
        None => match home {
            Some(h) => Some(path_below(h, ".config")),
            None => None,
        },
    }
}

/// The settings file, from `XDG_CONFIG_HOME` and `HOME`.
pub fn config_path(xdg: Option<&str>, home: Option<&str>) -> (r: String)
    ensures
        r@ == paths::below(
            paths::below(
                match config_dir(sessions::opt_str(xdg), sessions::opt_str(home)) {
                    Some(d) => d,
                    None => "."@,
                },
                "parecode"@,
            ),
            "config.toml"@,
        ),
{
    let dir = match dirs_config_dir(xdg, home) {
        Some(d) => d,
        None => ".".to_owned(),
    };
    let own = path_below(dir.as_str(), "parecode");
    path_below(own.as_str(), "config.toml")
}

/// The settings file that a first run writes.
pub const DEFAULT_CONFIG_TOML: &'static str = r#"# PareCode configuration
# Run `parecode --init` to regenerate this file.

default_profile = "local"

# ── Local Ollama (default) ────────────────────────────────────────────────────
[profiles.local]
endpoint      = "http://localhost:11434/v1/chat/completions"
model         = "qwen3:14b"
context_tokens = 32768
# api_key is not needed for Ollama

# ── Another local model example ───────────────────────────────────────────────
# [profiles.small]
# endpoint      = "http://localhost:11434/v1/chat/completions"
# model         = "qwen3:8b"
# context_tokens = 32768

# ── Anthropic ────────────────────────────────────────────────────────────────
# [profiles.anthropic]
# endpoint             = "https://api.anthropic.com/v1/chat/completions"
# model                = "..."
# context_tokens       = 200000
# api_key              = "sk-ant-..."
# cost_per_mtok_input  = 3.0   # USD per 1M input tokens — enables cost estimates in /plan

# ── Anthropic — Opus planner + Haiku executor ────────────────────────────────
# Uses Opus for planning (high reasoning, low token count) and Haiku for
# executing each step (fast, cheap). Best cost/quality ratio for large tasks.
# [profiles.anthropic-split]
# endpoint       = "https://api.anthropic.com/v1/chat/completions"
# model          = "..."
# planner_model  = "..."
# context_tokens = 200000
# api_key        = "sk-ant-..."

# ── OpenAI ───────────────────────────────────────────────────────────────────
# [profiles.openai]
# endpoint       = "https://api.openai.com/v1/chat/completions"
# model          = "gpt-4o"
# context_tokens = 128000
# api_key        = "sk-..."

# ── OpenRouter ────────────────────────────────────────────────────────────────
# [profiles.openrouter]
# endpoint       = "https://openrouter.ai/api/v1/chat/completions"
# model          = "qwen/qwen-2.5-coder-32b-instruct"
# context_tokens = 32768
# api_key        = "sk-or-..."

# ── Git integration (optional, per-profile) ──────────────────────────────────
# git_context = true           # inject git status into system prompt; enables checkpoints/diffs
# auto_commit = false          # auto-commit all changes after each successful task
# auto_commit_prefix = "parecode: "

# ── MCP servers (optional, per-profile) ──────────────────────────────────────
# Add MCP servers to any profile to give the model extra tools.
# Tools appear as "<server_name>.<tool_name>" (e.g. "brave.brave_web_search").
#
# Example: Brave Search (requires BRAVE_API_KEY — free at https://brave.com/search/api/)
# [[profiles.local.mcp_servers]]
# name    = "brave"
# command = ["npx", "-y", "@modelcontextprotocol/server-brave-search"]
# [profiles.local.mcp_servers.env]
# BRAVE_API_KEY = "BSA..."
#
# Example: Filesystem access (read/write beyond cwd)
# [[profiles.local.mcp_servers]]
# name    = "fs"
# command = ["npx", "-y", "@modelcontextprotocol/server-filesystem", "/home/user"]
#
# Example: Fetch (HTTP fetch + HTML→text, no API key needed)
# [[profiles.local.mcp_servers]]
# name    = "fetch"
# command = ["uvx", "mcp-server-fetch"]
"#;

/// A profile is taken by the name that is given, and by the default one where
/// none is; one that is not there is the one that is built in.
pub proof fn profiles_go_by_name<C>(file: ConfigFile<C>, name: &str)
    ensures
        file.profiles@.dom().contains(name@) ==> file.base(Some(name)) == file.profiles@[name@]@,
        !file.profiles@.dom().contains(name@) ==> file.base(Some(name)) == built_in::<C>(),
        file.profiles@.dom().contains(file.default_profile@) ==> file.base(None)
            == file.profiles@[file.default_profile@]@,
        !file.profiles@.dom().contains(file.default_profile@) ==> file.base(None) == built_in::<C>(),
        built_in::<C>().context_tokens == 32768,
        !built_in::<C>().auto_commit && built_in::<C>().git_context && !built_in::<C>().hooks_disabled,
        built_in::<C>().api_key is None && built_in::<C>().planner_model is None,
{
}

/// The hooks in force are those of the set that is named active, and none
/// where none is named or the named one is not there.
pub proof fn named_hooks_are_in_force<C>(file: ConfigFile<C>)
    ensures
        file.active_hooks matches Some(n) ==> file.hooks@.dom().contains(n@) ==> file.active_set()
            == file.hooks@[n@]@,
        file.active_hooks matches Some(n) ==> !file.hooks@.dom().contains(n@) ==> file.active_set()
            == no_hooks(),
        file.active_hooks is None ==> file.active_set() == no_hooks(),
        no_hooks().on_edit.len() == 0 && no_hooks().on_task_done.len() == 0
            && no_hooks().on_plan_step_done.len() == 0 && no_hooks().on_session_start.len() == 0
            && no_hooks().on_session_end.len() == 0,
{
}

/// The first line that sets the active hooks counts.
pub proof fn first_setting_counts(ls: Seq<Seq<char>>, i: int)
    requires
        0 <= i <= ls.len(),
        forall|k: int| 0 <= k < i ==> active_in_line(#[trigger] ls[k]) is None,
    ensures
        i == ls.len() ==> active_in(ls) is None,
        i < ls.len() && active_in_line(ls[i]) is Some ==> active_in(ls) == active_in_line(ls[i]),
    decreases ls.len(),
{
    if i > 0 {
        let t = ls.skip(1);
        assert forall|k: int| 0 <= k < i - 1 implies active_in_line(#[trigger] t[k]) is None by {
            assert(t[k] == ls[k + 1]);
        }
        first_setting_counts(t, i - 1);
        assert(active_in_line(ls[0]) is None);
        if i < ls.len() {
            assert(t[i - 1] == ls[i]);
        }
    }
}

/// Settings lie where the environment says, else below the home directory.
pub proof fn settings_lie_below_home(xdg: Seq<char>, home: Seq<char>)
    requires
        home.len() > 0,
        home.last() != '/',
    ensures
        config_dir(Some(xdg), None) == Some(xdg),
        config_dir(Some(xdg), Some(home)) == Some(xdg),
        config_dir(None, Some(home)) == Some(home + "/"@ + ".config"@),
        config_dir(None, None) is None,
{
    reveal_strlit("/");
    if text::ends(home, "/"@) {
        let n = home.len() as int;
        assert(home.subrange(n - 1, n)[0] == home.last());
    }
}

} // verus!
