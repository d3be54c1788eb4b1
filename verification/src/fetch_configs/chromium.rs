//! The "chromium" fetch config.
use vstd::prelude::*;
use crate::fetch_util::{Config, Solution, SolutionView, Spec, SpecOrAlias, SpecView};
use crate::string_map::StringMap;
use crate::text::{split, split_on, str_equal, to_string};

verus! {

/// Whether `props` maps `key` to exactly `value`.
pub open spec fn prop_is(props: Map<Seq<char>, Seq<char>>, key: Seq<char>, value: Seq<char>) -> bool {
    props.contains_key(key) && props[key] == value
}

/// The custom variables of the chromium solution for the given properties.
pub open spec fn chromium_custom_vars(props: Map<Seq<char>, Seq<char>>) -> Map<Seq<char>, Seq<char>> {
    let v0 = Map::<Seq<char>, Seq<char>>::empty();
    let v1 = if prop_is(props, "webkit_revision"@, "ToT"@) {
        v0.insert("webkit_revision"@, Seq::<char>::empty())
    } else {
        v0
    };
    if prop_is(props, "internal"@, "True"@) {
        v1.insert("checkout_src_internal"@, "True"@)
    } else {
        v1
    }
}

/// The one solution of a chromium checkout.
pub open spec fn chromium_solution(props: Map<Seq<char>, Seq<char>>) -> SolutionView {
    SolutionView {
        name: "src"@,
        url: "https://chromium.googlesource.com/chromium/src.git"@,
        deps_file: "DEPS"@,
        custom_deps: Map::empty(),
        custom_vars: chromium_custom_vars(props),
        protocol_override: None,
    }
}

/// The checkout description of chromium for the given properties: the
/// comma-separated `target_os` property becomes the list of target systems,
/// and `target_os_only` is copied.
pub open spec fn chromium_spec(props: Map<Seq<char>, Seq<char>>) -> SpecView {
    SpecView {
        solutions: seq![chromium_solution(props)],
        target_os: if props.contains_key("target_os"@) {
            split_on(props["target_os"@], ',')
        } else {
            Seq::empty()
        },
        target_os_only: if props.contains_key("target_os_only"@) {
            props["target_os_only"@]
        } else {
            Seq::empty()
        },
        cache_dir: None,
        cache_mode: None,
        with_branch_heads: None,
    }
}

/// The chromium config.
pub struct Chromium;

/// Whether `props` holds `value` under `key`.
fn has_prop(props: &StringMap, key: &str, value: &str) -> (r: bool)
    ensures
        r == prop_is(props@, key@, value@),
{
    match props.get(key) {
        Some(v) => str_equal(v.as_str(), value),
        None => false,
    }
}

impl Config for Chromium {
    fn fetch_spec(&self, props: &StringMap) -> (r: SpecOrAlias)
        ensures
            r matches SpecOrAlias::Spec(s) && s@ == chromium_spec(props@),
    {
        let url = to_string("https://chromium.googlesource.com/chromium/src.git");
        let mut solution = Solution {
            name: to_string("src"),
            url,
            deps_file: to_string("DEPS"),
            ..Default::default()
        };

        if has_prop(props, "webkit_revision", "ToT") {
            solution.custom_vars.insert(to_string("webkit_revision"), to_string(""));
        }
        if has_prop(props, "internal", "True") {
            solution.custom_vars.insert(to_string("checkout_src_internal"), to_string("True"));
        }

        proof {
            reveal_strlit("");
            assert(""@ =~= Seq::<char>::empty());
            assert(solution.custom_vars@ =~= chromium_custom_vars(props@));
            assert(solution@ == chromium_solution(props@));
        }
        let ghost sol_view = solution@;
        let mut spec = Spec { solutions: vec![solution], ..Default::default() };
        assert(spec@.solutions =~= seq![sol_view]);

        if let Some(target_os) = props.get("target_os") {
            spec.target_os = split(target_os.as_str(), ',');
        }
        if let Some(target_os_only) = props.get("target_os_only") {
            spec.target_os_only = target_os_only.clone();
        }
        SpecOrAlias::Spec(spec)
    }

    fn expected_roots(&self, _props: &StringMap) -> (r: String)
        ensures
            r@ == "src"@,
    {
        to_string("src")
    }
}

/// The custom variables of the chromium solution: `checkout_src_internal`
/// is "True" exactly when the `internal` property is "True", and
/// `webkit_revision` is empty exactly when the `webkit_revision` property is
/// "ToT"; each depends on its own property alone, and there are no others.
pub proof fn lemma_chromium_custom_vars(props: Map<Seq<char>, Seq<char>>)
    ensures
        ({
            let vars = chromium_spec(props).solutions[0].custom_vars;
            &&& vars.contains_key("checkout_src_internal"@) <==> (props.contains_key("internal"@)
                && props["internal"@] == "True"@)
            &&& vars.contains_key("checkout_src_internal"@) ==> vars["checkout_src_internal"@] == "True"@
            &&& vars.contains_key("webkit_revision"@) <==> (props.contains_key("webkit_revision"@)
                && props["webkit_revision"@] == "ToT"@)
            &&& vars.contains_key("webkit_revision"@) ==> vars["webkit_revision"@].len() == 0
            &&& forall|k: Seq<char>|
                vars.contains_key(k) ==> k == "checkout_src_internal"@ || k == "webkit_revision"@
        }),
{
    reveal_strlit("checkout_src_internal");
    reveal_strlit("webkit_revision");
    assert("checkout_src_internal"@.len() != "webkit_revision"@.len());
}

} // verus!
