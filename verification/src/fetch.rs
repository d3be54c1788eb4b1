//! `fetch`: resolving a named config into a checkout description, preparing
//! it from the command-line options, and planning the commands that create
//! the checkout.
use vstd::prelude::*;
use crate::fetch_configs::chromium::{chromium_spec, Chromium};
use crate::fetch_util::{opt_view, solution_views, Config, Solution, SolutionView, Spec, SpecOrAlias, SpecView};
use crate::string_map::StringMap;
use crate::text::{nested_views, concat, find, find_char, join, join_with, str_equal, substring, to_string, trim_start, trim_start_matches, views};

verus! {

/// The options of `fetch`.
#[derive(Debug)]
pub struct Fetch {
    /// Don't run commands, only print them.
    pub dry_run: bool,
    /// Don't run hooks after checkout.
    pub no_hooks: bool,
    /// Perform shallow clones, don't fetch the full git history.
    pub no_history: bool,
    /// Bootstrap each clone from a local git cache.
    pub git_cache: bool,
    /// (dangerous) Don't look for existing .gclient file.
    pub force: bool,
    /// Protocol to use to fetch dependencies, defaults to https.
    pub protocol_override: Option<String>,
    /// On macOS, prevent idle sleep during the operation.
    pub caffeinate: bool,
    /// Project to fetch, e.g. chromium.
    pub config: String,
    /// Additional properties or arguments.
    pub props: StringMap,
}

/// What `parse_key_value` gives for a `key=value` argument: leading dashes
/// are dropped, the text is cut at the first `=`, and an empty key or a
/// missing `=` is an error that quotes the argument.
pub open spec fn spec_parse_key_value(kv: Seq<char>) -> Result<(Seq<char>, Seq<char>), Seq<char>> {
    let t = trim_start(kv, '-');
    match find_char(t, '=') {
        Some(p) => if p == 0 {
            Err("Got bad argument "@ + kv)
        } else {
            Ok((t.take(p), t.skip(p + 1)))
        },
        None => Err("invalid format: "@ + kv),
    }
}

/// Parses one `key=value` property argument (leading dashes are allowed).
pub fn parse_key_value(kv: &str) -> (r: Result<(String, String), String>)
    ensures
        match r {
            Ok((k, v)) => spec_parse_key_value(kv@) == Ok::<(Seq<char>, Seq<char>), Seq<char>>((k@, v@)),
            Err(e) => spec_parse_key_value(kv@) == Err::<(Seq<char>, Seq<char>), Seq<char>>(e@),
        },
{
    let t = trim_start_matches(kv, '-');
    match find(t.as_str(), '=') {
        Some(p) => {
            proof {
                crate::text::lemma_find_char(t@, '=');
            }
            if p == 0 {
                let e = concat("Got bad argument ", kv);
                return Err(e);
            }
            let n = t.as_str().unicode_len();
            let key = substring(t.as_str(), 0, p);
            let value = substring(t.as_str(), p + 1, n);
            assert(key@ =~= t@.take(p as int));
            assert(value@ =~= t@.skip(p + 1));
            Ok((key, value))
        },
        None => Err(concat("invalid format: ", kv)),
    }
}

/// The properties an alias run sees: those of the alias, overridden by the
/// ones given on the command line.
pub fn merge_alias_props(alias_props: &StringMap, props: &StringMap) -> (r: StringMap)
    ensures
        r@ == alias_props@.union_prefer_right(props@),
{
    let mut merged = StringMap::new();
    merged.extend(alias_props);
    merged.extend(props);
    assert(Map::<Seq<char>, Seq<char>>::empty().union_prefer_right(alias_props@) =~= alias_props@);
    merged
}

/// What `run_config_fetch` gives: the checkout description and expected root
/// directory of a known config, or an error naming the unknown one.
pub open spec fn spec_run_config_fetch(config: Seq<char>, props: Map<Seq<char>, Seq<char>>) -> Result<
    (SpecView, Seq<char>),
    Seq<char>,
> {
    if config == "chromium"@ {
        Ok((chromium_spec(props), "src"@))
    } else {
        Err("Could not find a config for "@ + config)
    }
}

/// Invokes a config's `fetch_spec` with the passed-through properties and
/// returns its checkout description and expected root directory.
pub fn run_config_fetch(config: &str, props: &StringMap, aliased: Option<bool>) -> (r: Result<
    (Spec, String),
    String,
>)
    ensures
        match r {
            Ok((s, root)) => spec_run_config_fetch(config@, props@) == Ok::<
                (SpecView, Seq<char>),
                Seq<char>,
            >((s@, root@)),
            Err(e) => spec_run_config_fetch(config@, props@) == Err::<(SpecView, Seq<char>), Seq<char>>(
                e@,
            ),
        },
    decreases (if aliased == Some(true) {
        0int
    } else {
        1int
    }),
{
    if !str_equal(config, "chromium") {
        return Err(concat("Could not find a config for ", config));
    }
    let chromium = Chromium;
    match chromium.fetch_spec(props) {
        SpecOrAlias::Spec(spec) => {
            let root = chromium.expected_roots(props);
            Ok((spec, root))
        },
        SpecOrAlias::Alias(alias) => {
            // An alias stands for one other config, run once with the merged
            // properties.
            let merged = merge_alias_props(&alias.props, props);
            run_config_fetch(alias.config.as_str(), &merged, Some(true))
        },
    }
}

/// The checkout description with the git cache switched on: an existing
/// cache directory and cache mode are kept, otherwise `dir` and "bootstrap"
/// are filled in.
pub open spec fn with_git_cache(s: SpecView, dir: Option<Seq<char>>) -> SpecView {
    SpecView {
        cache_dir: if s.cache_dir is Some {
            s.cache_dir
        } else {
            dir
        },
        cache_mode: if s.cache_mode is Some {
            s.cache_mode
        } else {
            Some("bootstrap"@)
        },
        ..s
    }
}

/// The solution fetched over protocol `p`.
pub open spec fn solution_with_protocol(x: SolutionView, p: Seq<char>) -> SolutionView {
    SolutionView { protocol_override: Some(p), ..x }
}

/// The checkout description with every solution fetched over protocol `p`.
pub open spec fn with_protocol_override(s: SpecView, p: Seq<char>) -> SpecView {
    SpecView { solutions: s.solutions.map_values(|x: SolutionView| solution_with_protocol(x, p)), ..s }
}

/// The checkout description after the options of `fetch` are applied.
pub open spec fn prepared_spec(
    s: SpecView,
    git_cache: bool,
    dir: Option<Seq<char>>,
    protocol: Option<Seq<char>>,
) -> SpecView {
    let s1 = if git_cache {
        with_git_cache(s, dir)
    } else {
        s
    };
    match protocol {
        Some(p) => with_protocol_override(s1, p),
        None => s1,
    }
}

/// Sets the protocol of every solution to `p`.
fn override_protocol(solutions: Vec<Solution>, p: &String) -> (r: Vec<Solution>)
    ensures
        solution_views(r@) == solution_views(solutions@).map_values(
            |x: SolutionView| solution_with_protocol(x, p@),
        ),
{
    let ghost src = solutions@;
    let mut out: Vec<Solution> = Vec::new();
    for sol in it: solutions
        invariant
            it.seq() == src,
            out@.len() == it.index(),
            forall|j: int| 0 <= j < it.index() ==> #[trigger] out@[j]@ == solution_with_protocol(src[j]@, p@),
    {
        let mut sol = sol;
        sol.protocol_override = Some(p.clone());
        out.push(sol);
    }
    assert(solution_views(out@) =~= solution_views(src).map_values(
        |x: SolutionView| solution_with_protocol(x, p@),
    ));
    out
}

/// `std::io::Error`, the error type of gclient commands, declared so that
/// signatures can name it; nothing is assumed of its values.
#[verifier::external_type_specification]
#[verifier::external_body]
pub struct ExIoError(std::io::Error);

/// The arguments of the `gclient sync` run that creates a checkout.
pub open spec fn sync_args(no_hooks: bool, no_history: bool, branch_heads: bool) -> Seq<Seq<char>> {
    seq!["sync"@] + (if no_hooks {
        seq!["--nohooks"@]
    } else {
        Seq::<Seq<char>>::empty()
    }) + (if no_history {
        seq!["--nohistory"@]
    } else {
        Seq::<Seq<char>>::empty()
    }) + (if branch_heads {
        seq!["--with_branch_heads"@]
    } else {
        Seq::<Seq<char>>::empty()
    })
}

/// The git commands run in a fresh checkout: fetching tags too (unless the
/// history is shallow), and ignoring dirty submodules in diffs.
pub open spec fn git_config_commands(no_history: bool) -> Seq<Seq<Seq<char>>> {
    (if !no_history {
        seq![seq!["config"@, "--add"@, "remote.origin.fetch"@, "+refs/tags/*:refs/tags/*"@]]
    } else {
        Seq::<Seq<Seq<char>>>::empty()
    }) + seq![seq!["config"@, "diff.ignoreSubmodules"@, "dirty"@]]
}

/// The line announcing a git command.
pub open spec fn git_banner_text(cmd: Seq<Seq<char>>) -> Seq<char> {
    "Running git "@ + join_with(cmd, " "@)
}

/// The line announcing a git command: "Running git" and its arguments.
pub fn git_banner(cmd: &Vec<String>) -> (r: String)
    ensures
        r@ == git_banner_text(views(cmd@)),
{
    concat("Running git ", join(cmd, " ").as_str())
}

/// What creating a checkout did and what remains: the gclient commands that
/// were run, in order; whether to show the working directory (a dry run); the
/// git commands to announce in the checkout's root directory; and whether to
/// run them (not in a dry run).
pub struct InitPlan {
    pub gclient_commands: Vec<Vec<String>>,
    pub show_workdir: bool,
    pub git_commands: Vec<Vec<String>>,
    pub run_git: bool,
}

/// A checkout of type gclient-git in directory `base`.
pub struct Checkout {
    /// A path: the directory `fetch` runs in.
    pub base: String,
    pub options: Fetch,
    pub spec: Spec,
    pub root: String,
}

impl Checkout {
    /// A checkout in directory `base`.
    pub fn new(options: Fetch, spec: Spec, root: String, base: String) -> (c: Checkout)
        ensures
            c.options == options,
            c.spec == spec,
            c.root == root,
            c.base == base,
    {
        Checkout { base, options, spec, root }
    }

    /// Runs gclient with the given arguments. gclient is not available yet:
    /// every command succeeds with empty output.
    pub fn run_gclient(&self, _cmd: &[String]) -> (r: Result<String, std::io::Error>)
        ensures
            r matches Ok(out) && out@ == Seq::<char>::empty(),
    {
        Ok(String::new())
    }

    /// The arguments of `gclient config` for this checkout's description in
    /// JSON form.
    pub fn config_command(&self, spec_json: &str) -> (r: Vec<String>)
        ensures
            views(r@) == seq!["config"@, "--spec"@, spec_json@],
    {
        let r = vec![to_string("config"), to_string("--spec"), to_string(spec_json)];
        assert(views(r@) =~= seq!["config"@, "--spec"@, spec_json@]);
        r
    }

    /// The arguments of `gclient sync` for this checkout.
    pub fn sync_command(&self) -> (r: Vec<String>)
        ensures
            views(r@) == sync_args(
                self.options.no_hooks,
                self.options.no_history,
                self.spec.with_branch_heads == Some(true),
            ),
    {
        let mut r = vec![to_string("sync")];
        if self.options.no_hooks {
            r.push(to_string("--nohooks"));
        }
        if self.options.no_history {
            r.push(to_string("--nohistory"));
        }
        let branch_heads = match self.spec.with_branch_heads {
            Some(b) => b,
            None => false,
        };
        if branch_heads {
            r.push(to_string("--with_branch_heads"));
        }
        assert(views(r@) =~= sync_args(
            self.options.no_hooks,
            self.options.no_history,
            self.spec.with_branch_heads == Some(true),
        ));
        r
    }

    /// The git commands that configure the fresh checkout.
    pub fn git_commands(&self) -> (r: Vec<Vec<String>>)
        ensures
            nested_views(r@) == git_config_commands(self.options.no_history),
    {
        let mut r: Vec<Vec<String>> = Vec::new();
        if !self.options.no_history {
            let c = vec![
                to_string("config"),
                to_string("--add"),
                to_string("remote.origin.fetch"),
                to_string("+refs/tags/*:refs/tags/*"),
            ];
            assert(views(c@) =~= seq!["config"@, "--add"@, "remote.origin.fetch"@, "+refs/tags/*:refs/tags/*"@]);
            r.push(c);
        }
        let c = vec![to_string("config"), to_string("diff.ignoreSubmodules"), to_string("dirty")];
        assert(views(c@) =~= seq!["config"@, "diff.ignoreSubmodules"@, "dirty"@]);
        r.push(c);
        assert(nested_views(r@) =~= git_config_commands(self.options.no_history));
        r
    }

    /// Creates the checkout: runs `gclient config` with the description in
    /// JSON form and `gclient sync`, and plans the git configuration.
    pub fn init(&self, spec_json: &str) -> (r: InitPlan)
        ensures
            nested_views(r.gclient_commands@) == seq![
                seq!["config"@, "--spec"@, spec_json@],
                sync_args(
                    self.options.no_hooks,
                    self.options.no_history,
                    self.spec.with_branch_heads == Some(true),
                ),
            ],
            r.show_workdir == self.options.dry_run,
            nested_views(r.git_commands@) == git_config_commands(self.options.no_history),
            r.run_git == !self.options.dry_run,
    {
        let config = self.config_command(spec_json);
        let sync = self.sync_command();
        let gclient_commands = vec![config, sync];
        let _ = self.run_gclient(gclient_commands[0].as_slice());
        let _ = self.run_gclient(gclient_commands[1].as_slice());
        assert(nested_views(gclient_commands@) =~= seq![
            seq!["config"@, "--spec"@, spec_json@],
            sync_args(
                self.options.no_hooks,
                self.options.no_history,
                self.spec.with_branch_heads == Some(true),
            ),
        ]);
        InitPlan {
            gclient_commands,
            show_workdir: self.options.dry_run,
            git_commands: self.git_commands(),
            run_git: !self.options.dry_run,
        }
    }
}

/// The paths whose existence shows that a checkout is there already, each as
/// the pieces to join in order: with a gclient root, its `.gclient` file and
/// the `.git` directory of `root` under `base`; without one, `root` under
/// `base`.
pub open spec fn existence_probe_paths(gclient_root: Option<Seq<char>>, base: Seq<char>, root: Seq<char>) -> Seq<
    Seq<Seq<char>>,
> {
    match gclient_root {
        Some(g) => seq![seq![g, ".gclient"@], seq![base, root, ".git"@]],
        None => seq![seq![base, root]],
    }
}

impl Checkout {
    /// The paths to look for, in order, to tell whether a checkout is there
    /// already: one of them existing means it is. The gclient root comes
    /// from `gclient root`, which prints nothing yet.
    pub fn existence_probes(&self) -> (r: Vec<Vec<String>>)
        ensures
            nested_views(r@) == existence_probe_paths(Some(Seq::<char>::empty()), self.base@, self.root@),
    {
        let cmd = vec![to_string("root")];
        match self.run_gclient(cmd.as_slice()) {
            Ok(gclient_root) => {
                let a = vec![gclient_root, to_string(".gclient")];
                let b = vec![self.base.clone(), self.root.clone(), to_string(".git")];
                assert(views(a@) =~= seq![Seq::<char>::empty(), ".gclient"@]);
                assert(views(b@) =~= seq![self.base@, self.root@, ".git"@]);
                let r = vec![a, b];
                assert(nested_views(r@) =~= existence_probe_paths(
                    Some(Seq::<char>::empty()),
                    self.base@,
                    self.root@,
                ));
                r
            },
            Err(_) => {
                let r = vec![vec![self.base.clone(), self.root.clone()]];
                r
            },
        }
    }

    /// Ends a run that had to look for an existing checkout: one that exists
    /// is refused, otherwise this checkout is created.
    pub fn conclude(self, exists: bool) -> (r: RunOutcome)
        ensures
            exists ==> r is ExistingCheckout,
            !exists ==> r == RunOutcome::Initialize(self),
    {
        if exists {
            RunOutcome::ExistingCheckout
        } else {
            RunOutcome::Initialize(self)
        }
    }
}

/// What `run` learns from outside the library.
pub struct RunEnv {
    /// Whether the current directory is inside a Cog workspace.
    pub in_cog_workspace: bool,
    /// The git cache directory to use when `--git-cache` is on and the config
    /// chose none (a path).
    pub git_cache_dir: Option<String>,
    /// The current directory (a path).
    pub base: String,
}

/// How `run` ends.
pub enum RunOutcome {
    /// `fetch` is not supported in a Cog workspace.
    CogWorkspace,
    /// A checkout is there already; `fetch` only makes new ones.
    ExistingCheckout,
    /// Without `--force`: the checkout to create, once it is known that none
    /// is there already (see `Checkout::existence_probes` and
    /// `Checkout::conclude`).
    CheckExisting(Checkout),
    /// The checkout to create.
    Initialize(Checkout),
}

/// Whether `c` is the checkout that `run` makes of its arguments.
pub open spec fn is_prepared_checkout(c: Checkout, options: Fetch, spec: SpecView, root: Seq<char>, env: RunEnv) -> bool {
    &&& c.options == options
    &&& c.root@ == root
    &&& c.base == env.base
    &&& c.spec@ == prepared_spec(
        spec,
        options.git_cache,
        opt_view(env.git_cache_dir),
        opt_view(options.protocol_override),
    )
}

/// Performs a checkout of the given description into `root`: refuses in a Cog
/// workspace; otherwise applies the git-cache and protocol options and gives
/// the checkout to create, which without `--force` is first to be checked for
/// an existing checkout (refused by `Checkout::conclude`).
pub fn run(options: Fetch, spec: Spec, root: String, env: RunEnv) -> (r: RunOutcome)
    ensures
        env.in_cog_workspace ==> r is CogWorkspace,
        !env.in_cog_workspace && !options.force ==> (r matches RunOutcome::CheckExisting(c)
            && is_prepared_checkout(c, options, spec@, root@, env)),
        !env.in_cog_workspace && options.force ==> (r matches RunOutcome::Initialize(c)
            && is_prepared_checkout(c, options, spec@, root@, env)),
{
    if env.in_cog_workspace {
        return RunOutcome::CogWorkspace;
    }
    let mut spec = spec;
    let ghost s0 = spec@;
    if options.git_cache {
        if spec.cache_dir.is_none() {
            spec.cache_dir = env.git_cache_dir;
        }
        if spec.cache_mode.is_none() {
            spec.cache_mode = Some(to_string("bootstrap"));
        }
    }
    let ghost s1 = spec@;
    assert(s1 == if options.git_cache { with_git_cache(s0, opt_view(env.git_cache_dir)) } else { s0 });
    if let Some(protocol_override) = &options.protocol_override {
        spec.solutions = override_protocol(spec.solutions, protocol_override);
        assert(spec@ =~= with_protocol_override(s1, protocol_override@));
    }
    let force = options.force;
    let checkout = Checkout::new(options, spec, root, env.base);
    if force {
        RunOutcome::Initialize(checkout)
    } else {
        RunOutcome::CheckExisting(checkout)
    }
}

impl Fetch {
    /// Fetches the config named on the command line: resolves it into its
    /// checkout description and expected root directory, and runs the checkout
    /// of that description into that directory.
    pub fn run(self, env: RunEnv) -> (r: RunOutcome)
        requires
            self.config@ == "chromium"@,
        ensures
            env.in_cog_workspace ==> r is CogWorkspace,
            !env.in_cog_workspace && !self.force ==> (r matches RunOutcome::CheckExisting(c)
                && is_prepared_checkout(c, self, chromium_spec(self.props@), "src"@, env)),
            !env.in_cog_workspace && self.force ==> (r matches RunOutcome::Initialize(c)
                && is_prepared_checkout(c, self, chromium_spec(self.props@), "src"@, env)),
    {
        match run_config_fetch(self.config.as_str(), &self.props, None) {
            Ok((spec, root)) => run(self, spec, root, env),
            Err(_) => {
                proof {
                    assert(false);
                }
                RunOutcome::CogWorkspace
            },
        }
    }
}

/// `n` dashes.
pub open spec fn dashes(n: nat) -> Seq<char> {
    Seq::new(n, |_i: int| '-')
}

proof fn lemma_skip_dashes(s: Seq<char>, n: nat, i: int)
    requires
        0 <= i <= n < s.len(),
        s.take(n as int) == dashes(n),
        s[n as int] != '-',
    ensures
        crate::text::skip_run(s, '-', i) == n,
    decreases n - i,
{
    if i < n {
        assert(s[i] == s.take(n as int)[i]);
        lemma_skip_dashes(s, n, i + 1);
    }
}

proof fn lemma_find_first_equals(t: Seq<char>, key: Seq<char>, i: int)
    requires
        0 <= i <= key.len() < t.len(),
        t.take(key.len() as int) == key,
        t[key.len() as int] == '=',
        forall|j: int| 0 <= j < key.len() ==> key[j] != '=',
    ensures
        crate::text::find_from(t, '=', i) == Some(key.len() as int),
    decreases key.len() - i,
{
    if i < key.len() {
        assert(t[i] == key[i]);
        lemma_find_first_equals(t, key, i + 1);
    }
}

/// A property argument `--key=value` (any number of leading dashes) gives
/// back its key and value, provided the key is not empty, holds no `=` and
/// does not start with a dash; the value may hold anything.
pub proof fn lemma_parse_key_value_roundtrip(n: nat, key: Seq<char>, value: Seq<char>)
    requires
        key.len() > 0,
        key[0] != '-',
        forall|j: int| 0 <= j < key.len() ==> key[j] != '=',
    ensures
        spec_parse_key_value(dashes(n) + key + seq!['='] + value) == Ok::<
            (Seq<char>, Seq<char>),
            Seq<char>,
        >((key, value)),
{
    let kv = dashes(n) + key + seq!['='] + value;
    assert(kv.take(n as int) =~= dashes(n));
    assert(kv[n as int] == key[0]);
    lemma_skip_dashes(kv, n, 0);
    let t = trim_start(kv, '-');
    assert(t =~= key + seq!['='] + value);
    assert(t.take(key.len() as int) =~= key);
    assert(t[key.len() as int] == '=');
    lemma_find_first_equals(t, key, 0);
    assert(t.skip(key.len() as int + 1) =~= value);
}

/// Enabling the git cache twice is the same as enabling it once, and a cache
/// directory or mode the config chose is kept.
pub proof fn lemma_git_cache_keeps_choices(s: SpecView, d1: Option<Seq<char>>, d2: Option<Seq<char>>)
    ensures
        d1 is Some || s.cache_dir is Some ==> with_git_cache(with_git_cache(s, d1), d2) == with_git_cache(s, d1),
        s.cache_dir is Some ==> with_git_cache(s, d1).cache_dir == s.cache_dir,
        s.cache_mode is Some ==> with_git_cache(s, d1).cache_mode == s.cache_mode,
        with_git_cache(s, d1).cache_mode is Some,
{
}

/// A protocol override reaches every solution and changes nothing else.
pub proof fn lemma_protocol_override_reaches_every_solution(s: SpecView, p: Seq<char>)
    ensures
        with_protocol_override(s, p).solutions.len() == s.solutions.len(),
        forall|i: int| 0 <= i < s.solutions.len() ==> {
            let x = #[trigger] with_protocol_override(s, p).solutions[i];
            &&& x.protocol_override == Some(p)
            &&& x.name == s.solutions[i].name
            &&& x.url == s.solutions[i].url
            &&& x.deps_file == s.solutions[i].deps_file
            &&& x.custom_deps == s.solutions[i].custom_deps
            &&& x.custom_vars == s.solutions[i].custom_vars
        },
        with_protocol_override(s, p).target_os == s.target_os,
        with_protocol_override(s, p).cache_dir == s.cache_dir,
{
}

/// The root directory a resolved config expects is the name of its first
/// solution.
pub proof fn lemma_root_is_first_solution(config: Seq<char>, props: Map<Seq<char>, Seq<char>>)
    ensures
        spec_run_config_fetch(config, props) matches Ok((s, root)) ==> s.solutions.len() == 1
            && s.solutions[0].name == root,
{
}

/// The target systems of a chromium checkout, joined by commas, give back the
/// `target_os` property.
pub proof fn lemma_target_os_roundtrip(props: Map<Seq<char>, Seq<char>>)
    requires
        props.contains_key("target_os"@),
    ensures
        join_with(chromium_spec(props).target_os, seq![',']) == props["target_os"@],
{
    crate::text::lemma_join_split(props["target_os"@], ',');
}

/// The arguments of `gclient sync` start with `sync`, and `--nohooks`,
/// `--nohistory` and `--with_branch_heads` each appear exactly when their own
/// option is set, whatever the others are, once at most, and nothing else.
pub proof fn lemma_sync_args_flags(no_hooks: bool, no_history: bool, branch_heads: bool)
    ensures
        ({
            let a = sync_args(no_hooks, no_history, branch_heads);
            &&& a[0] == "sync"@
            &&& a.contains("--nohooks"@) <==> no_hooks
            &&& a.contains("--nohistory"@) <==> no_history
            &&& a.contains("--with_branch_heads"@) <==> branch_heads
            &&& a.len() == 1 + (if no_hooks {
                1int
            } else {
                0int
            }) + (if no_history {
                1int
            } else {
                0int
            }) + (if branch_heads {
                1int
            } else {
                0int
            })
        }),
{
    reveal_strlit("sync");
    reveal_strlit("--nohooks");
    reveal_strlit("--nohistory");
    reveal_strlit("--with_branch_heads");
    let a = sync_args(no_hooks, no_history, branch_heads);
    let h = "--nohooks"@;
    let y = "--nohistory"@;
    let b = "--with_branch_heads"@;
    assert(h.len() == 9 && y.len() == 11 && b.len() == 19 && "sync"@.len() == 4);
    assert(a.contains(h) ==> no_hooks) by {
        if a.contains(h) {
            let i = choose|i: int| 0 <= i < a.len() && a[i] == h;
            assert(a[i].len() == 9);
        }
    }
    assert(a.contains(y) ==> no_history) by {
        if a.contains(y) {
            let i = choose|i: int| 0 <= i < a.len() && a[i] == y;
            assert(a[i].len() == 11);
        }
    }
    assert(a.contains(b) ==> branch_heads) by {
        if a.contains(b) {
            let i = choose|i: int| 0 <= i < a.len() && a[i] == b;
            assert(a[i].len() == 19);
        }
    }
    if no_hooks {
        assert(a[1] == h);
    }
    if no_history {
        let i = if no_hooks { 2int } else { 1int };
        assert(a[i] == y);
    }
    if branch_heads {
        let i = a.len() - 1;
        assert(a[i] == b);
    }
}

/// Resolving "chromium" always succeeds with root "src", and the properties
/// reach the description: the target systems, joined by commas, give back
/// the `target_os` property (none without it), and `target_os_only` is the
/// property (empty without it); `internal=True` asks for the internal
/// checkout.
pub proof fn lemma_chromium_resolution_uses_props(props: Map<Seq<char>, Seq<char>>)
    ensures
        spec_run_config_fetch("chromium"@, props) matches Ok((s, root)) && root == "src"@ && (if props.contains_key(
            "target_os"@,
        ) {
            join_with(s.target_os, seq![',']) == props["target_os"@]
        } else {
            s.target_os.len() == 0
        }) && (if props.contains_key("target_os_only"@) {
            s.target_os_only == props["target_os_only"@]
        } else {
            s.target_os_only.len() == 0
        }) && s.solutions.len() == 1 && (s.solutions[0].custom_vars.contains_key(
            "checkout_src_internal"@,
        ) <==> (props.contains_key("internal"@) && props["internal"@] == "True"@)),
{
    crate::fetch_configs::chromium::lemma_chromium_custom_vars(props);
    if props.contains_key("target_os"@) {
        crate::text::lemma_join_split(props["target_os"@], ',');
    }
}

} // verus!
