use depot_tools::fetch::{
    git_banner, merge_alias_props, parse_key_value, run, run_config_fetch, Checkout, Fetch,
    RunEnv, RunOutcome,
};
use depot_tools::fetch_configs::chromium::Chromium;
use depot_tools::fetch_util::{Config, Solution, Spec, SpecOrAlias};
use depot_tools::string_map::StringMap;

fn s(x: &str) -> String {
    x.to_string()
}

fn props(pairs: &[(&str, &str)]) -> StringMap {
    let mut m = StringMap::new();
    for (k, v) in pairs {
        m.insert(s(k), s(v));
    }
    m
}

fn options(config: &str) -> Fetch {
    Fetch {
        dry_run: false,
        no_hooks: false,
        no_history: false,
        git_cache: false,
        force: false,
        protocol_override: None,
        caffeinate: true,
        config: s(config),
        props: StringMap::new(),
    }
}

fn env(in_cog: bool) -> RunEnv {
    RunEnv {
        in_cog_workspace: in_cog,
        git_cache_dir: Some(s("/home/u/.cache/depot_tools/git_cache")),
        base: s("/work"),
    }
}

/// Runs `fetch` to its end, with `exists` telling whether a checkout is there.
fn run_to_end(o: Fetch, spec: Spec, env: RunEnv, exists: bool) -> RunOutcome {
    match run(o, spec, s("src"), env) {
        RunOutcome::CheckExisting(c) => c.conclude(exists),
        other => other,
    }
}

fn chromium_spec(p: &StringMap) -> Spec {
    match Chromium.fetch_spec(p) {
        SpecOrAlias::Spec(spec) => spec,
        SpecOrAlias::Alias(_) => panic!("chromium is no alias"),
    }
}

#[test]
fn parse_key_value_plain() {
    assert_eq!(parse_key_value("target_os=android"), Ok((s("target_os"), s("android"))));
}

#[test]
fn parse_key_value_leading_dashes() {
    assert_eq!(parse_key_value("--internal=True"), Ok((s("internal"), s("True"))));
    assert_eq!(parse_key_value("-a=b"), Ok((s("a"), s("b"))));
}

#[test]
fn parse_key_value_value_keeps_equals() {
    assert_eq!(parse_key_value("k=v=w"), Ok((s("k"), s("v=w"))));
    assert_eq!(parse_key_value("k="), Ok((s("k"), s(""))));
}

#[test]
fn parse_key_value_empty_key() {
    assert_eq!(parse_key_value("=value"), Err(s("Got bad argument =value")));
    assert_eq!(parse_key_value("--=value"), Err(s("Got bad argument --=value")));
}

#[test]
fn parse_key_value_missing_equals() {
    assert_eq!(parse_key_value("novalue"), Err(s("invalid format: novalue")));
    assert_eq!(parse_key_value(""), Err(s("invalid format: ")));
}

#[test]
fn chromium_default_spec() {
    let spec = chromium_spec(&StringMap::new());
    assert_eq!(spec.solutions.len(), 1);
    let sol: &Solution = &spec.solutions[0];
    assert_eq!(sol.name, "src");
    assert_eq!(sol.url, "https://chromium.googlesource.com/chromium/src.git");
    assert_eq!(sol.deps_file, "DEPS");
    assert_eq!(sol.custom_deps.len(), 0);
    assert_eq!(sol.custom_vars.len(), 0);
    assert_eq!(sol.protocol_override, None);
    assert!(spec.target_os.is_empty());
    assert_eq!(spec.target_os_only, "");
    assert_eq!(spec.cache_dir, None);
    assert_eq!(spec.cache_mode, None);
    assert_eq!(spec.with_branch_heads, None);
    assert_eq!(Chromium.expected_roots(&StringMap::new()), "src");
}

#[test]
fn chromium_webkit_and_internal() {
    let spec = chromium_spec(&props(&[("webkit_revision", "ToT"), ("internal", "True")]));
    let vars = &spec.solutions[0].custom_vars;
    assert_eq!(vars.len(), 2);
    assert_eq!(vars.get("webkit_revision"), Some(&s("")));
    assert_eq!(vars.get("checkout_src_internal"), Some(&s("True")));
}

#[test]
fn chromium_props_must_match_exactly() {
    let spec = chromium_spec(&props(&[("webkit_revision", "tot"), ("internal", "true")]));
    assert_eq!(spec.solutions[0].custom_vars.len(), 0);
}

#[test]
fn chromium_target_os_split() {
    let spec = chromium_spec(&props(&[("target_os", "android,ios,,win"), ("target_os_only", "True")]));
    assert_eq!(spec.target_os, vec![s("android"), s("ios"), s(""), s("win")]);
    assert_eq!(spec.target_os_only, "True");
    let one = chromium_spec(&props(&[("target_os", "android")]));
    assert_eq!(one.target_os, vec![s("android")]);
}

#[test]
fn run_config_fetch_known_and_unknown() {
    let (spec, root) = run_config_fetch("chromium", &StringMap::new(), None).unwrap();
    assert_eq!(root, "src");
    assert_eq!(spec.solutions[0].name, root);
    match run_config_fetch("v8", &StringMap::new(), None) {
        Err(e) => assert_eq!(e, "Could not find a config for v8"),
        Ok(_) => panic!("v8 has no config"),
    }
}

#[test]
fn fetch_run_resolves_config() {
    let mut o = options("chromium");
    o.props = props(&[("target_os", "linux")]);
    o.protocol_override = Some(s("sso"));
    match o.run(env(false)) {
        RunOutcome::CheckExisting(c) => {
            assert_eq!(c.root, "src");
            assert_eq!(c.base, "/work");
            assert_eq!(c.spec.target_os, vec![s("linux")]);
            assert_eq!(c.spec.solutions[0].protocol_override, Some(s("sso")));
        }
        _ => panic!("an unforced fetch checks for an existing checkout"),
    }
    assert!(matches!(options("chromium").run(env(true)), RunOutcome::CogWorkspace));
}

#[test]
fn merged_props_prefer_command_line() {
    let alias = props(&[("a", "1"), ("b", "2")]);
    let given = props(&[("b", "3"), ("c", "4")]);
    let m = merge_alias_props(&alias, &given);
    assert_eq!(m.len(), 3);
    assert_eq!(m.get("a"), Some(&s("1")));
    assert_eq!(m.get("b"), Some(&s("3")));
    assert_eq!(m.get("c"), Some(&s("4")));
}

#[test]
fn run_refuses_in_cog_workspace() {
    let spec = chromium_spec(&StringMap::new());
    assert!(matches!(run(options("chromium"), spec, s("src"), env(true)), RunOutcome::CogWorkspace));
}

#[test]
fn run_refuses_existing_checkout() {
    let spec = chromium_spec(&StringMap::new());
    match run(options("chromium"), spec, s("src"), env(false)) {
        RunOutcome::CheckExisting(c) => {
            assert_eq!(c.root, "src");
            assert!(matches!(c.conclude(true), RunOutcome::ExistingCheckout));
        }
        _ => panic!("an unforced fetch checks for an existing checkout"),
    }
}

#[test]
fn run_forced_over_existing_checkout() {
    let spec = chromium_spec(&StringMap::new());
    let mut o = options("chromium");
    o.force = true;
    match run(o, spec, s("src"), env(false)) {
        RunOutcome::Initialize(c) => {
            assert_eq!(c.root, "src");
            assert_eq!(c.base, "/work");
            assert!(c.options.force);
        }
        _ => panic!("a forced fetch initializes"),
    }
}

#[test]
fn run_applies_git_cache_and_protocol() {
    let spec = chromium_spec(&StringMap::new());
    let mut o = options("chromium");
    o.git_cache = true;
    o.protocol_override = Some(s("sso"));
    match run_to_end(o, spec, env(false), false) {
        RunOutcome::Initialize(c) => {
            assert_eq!(c.spec.cache_dir, Some(s("/home/u/.cache/depot_tools/git_cache")));
            assert_eq!(c.spec.cache_mode, Some(s("bootstrap")));
            assert_eq!(c.spec.solutions[0].protocol_override, Some(s("sso")));
        }
        _ => panic!("a new checkout initializes"),
    }
}

#[test]
fn run_git_cache_keeps_config_choices() {
    let mut spec = chromium_spec(&StringMap::new());
    spec.cache_dir = Some(s("/mirror"));
    spec.cache_mode = Some(s("populate"));
    let mut o = options("chromium");
    o.git_cache = true;
    match run_to_end(o, spec, env(false), false) {
        RunOutcome::Initialize(c) => {
            assert_eq!(c.spec.cache_dir, Some(s("/mirror")));
            assert_eq!(c.spec.cache_mode, Some(s("populate")));
            assert_eq!(c.spec.solutions[0].protocol_override, None);
        }
        _ => panic!("a new checkout initializes"),
    }
}

#[test]
fn run_without_git_cache_leaves_spec() {
    let spec = chromium_spec(&StringMap::new());
    match run_to_end(options("chromium"), spec, env(false), false) {
        RunOutcome::Initialize(c) => {
            assert_eq!(c.spec.cache_dir, None);
            assert_eq!(c.spec.cache_mode, None);
        }
        _ => panic!("a new checkout initializes"),
    }
}

fn checkout(no_hooks: bool, no_history: bool, dry_run: bool, branch_heads: Option<bool>) -> Checkout {
    let mut o = options("chromium");
    o.no_hooks = no_hooks;
    o.no_history = no_history;
    o.dry_run = dry_run;
    let mut spec = chromium_spec(&StringMap::new());
    spec.with_branch_heads = branch_heads;
    Checkout::new(o, spec, s("src"), s("/work"))
}

#[test]
fn sync_command_flags() {
    assert_eq!(checkout(false, false, false, None).sync_command(), vec![s("sync")]);
    assert_eq!(
        checkout(true, true, false, Some(true)).sync_command(),
        vec![s("sync"), s("--nohooks"), s("--nohistory"), s("--with_branch_heads")]
    );
    assert_eq!(checkout(false, true, false, Some(false)).sync_command(), vec![s("sync"), s("--nohistory")]);
}

#[test]
fn git_commands_with_and_without_history() {
    assert_eq!(
        checkout(false, false, false, None).git_commands(),
        vec![
            vec![s("config"), s("--add"), s("remote.origin.fetch"), s("+refs/tags/*:refs/tags/*")],
            vec![s("config"), s("diff.ignoreSubmodules"), s("dirty")],
        ]
    );
    assert_eq!(
        checkout(false, true, false, None).git_commands(),
        vec![vec![s("config"), s("diff.ignoreSubmodules"), s("dirty")]]
    );
}

#[test]
fn config_command_and_gclient_stub() {
    let c = checkout(false, false, false, None);
    assert_eq!(c.config_command("{}"), vec![s("config"), s("--spec"), s("{}")]);
    assert_eq!(c.run_gclient(&[s("root")]).unwrap(), "");
}

#[test]
fn existence_probes_paths() {
    let c = checkout(false, false, false, None);
    assert_eq!(
        c.existence_probes(),
        vec![vec![s(""), s(".gclient")], vec![s("/work"), s("src"), s(".git")]]
    );
}

#[test]
fn init_gclient_commands() {
    let plan = checkout(true, false, true, Some(true)).init("{\"x\":1}");
    assert_eq!(
        plan.gclient_commands,
        vec![
            vec![s("config"), s("--spec"), s("{\"x\":1}")],
            vec![s("sync"), s("--nohooks"), s("--with_branch_heads")],
        ]
    );
    assert!(plan.show_workdir);
    assert!(!plan.run_git);
    let plan = checkout(false, true, true, None).init("{}");
    assert_eq!(plan.gclient_commands[1], vec![s("sync"), s("--nohistory")]);
    assert_eq!(plan.git_commands, vec![vec![s("config"), s("diff.ignoreSubmodules"), s("dirty")]]);
}

#[test]
fn init_plan_dry_run() {
    let plan = checkout(false, false, true, None).init("{}");
    assert!(plan.show_workdir);
    assert!(!plan.run_git);
    assert_eq!(plan.git_commands.len(), 2);
    let plan = checkout(false, true, false, None).init("{}");
    assert!(!plan.show_workdir);
    assert!(plan.run_git);
    assert_eq!(plan.git_commands.len(), 1);
}

#[test]
fn git_banner_text() {
    assert_eq!(
        git_banner(&vec![s("config"), s("diff.ignoreSubmodules"), s("dirty")]),
        "Running git config diff.ignoreSubmodules dirty"
    );
    assert_eq!(git_banner(&vec![]), "Running git ");
}
