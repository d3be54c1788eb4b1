//! The checkout description that a fetch config produces, and the trait that
//! every config implements.
use vstd::prelude::*;
use crate::string_map::StringMap;
use crate::text::views;

verus! {

/// The view of an optional string.
pub open spec fn opt_view(o: Option<String>) -> Option<Seq<char>> {
    match o {
        Some(s) => Some(s@),
        None => None,
    }
}

/// Model of a [`Solution`].
pub struct SolutionView {
    pub name: Seq<char>,
    pub url: Seq<char>,
    pub deps_file: Seq<char>,
    pub custom_deps: Map<Seq<char>, Seq<char>>,
    pub custom_vars: Map<Seq<char>, Seq<char>>,
    pub protocol_override: Option<Seq<char>>,
}

/// Model of a [`Spec`].
pub struct SpecView {
    pub solutions: Seq<SolutionView>,
    pub target_os: Seq<Seq<char>>,
    pub target_os_only: Seq<char>,
    pub cache_dir: Option<Seq<char>>,
    pub cache_mode: Option<Seq<char>>,
    pub with_branch_heads: Option<bool>,
}

impl SolutionView {
    /// A solution with every field empty.
    pub open spec fn empty() -> SolutionView {
        SolutionView {
            name: Seq::empty(),
            url: Seq::empty(),
            deps_file: Seq::empty(),
            custom_deps: Map::empty(),
            custom_vars: Map::empty(),
            protocol_override: None,
        }
    }
}

impl SpecView {
    /// A checkout description with every field empty.
    pub open spec fn empty() -> SpecView {
        SpecView {
            solutions: Seq::empty(),
            target_os: Seq::empty(),
            target_os_only: Seq::empty(),
            cache_dir: None,
            cache_mode: None,
            with_branch_heads: None,
        }
    }
}

/// Only the "gclient_git" checkout type is used, so this is a struct rather
/// than an enum of checkout types.
#[derive(Debug)]
pub struct Spec {
    pub solutions: Vec<Solution>,
    pub target_os: Vec<String>,
    pub target_os_only: String,
    /// A path.
    pub cache_dir: Option<String>,
    pub cache_mode: Option<String>,
    pub with_branch_heads: Option<bool>,
}

/// One solution (top-level dependency) of a checkout.
#[derive(Debug)]
pub struct Solution {
    pub name: String,
    pub url: String,
    pub deps_file: String,
    pub custom_deps: StringMap,
    pub custom_vars: StringMap,
    pub protocol_override: Option<String>,
}

/// A config that stands for another config with extra properties.
#[derive(Debug)]
pub struct Alias {
    pub config: String,
    pub props: StringMap,
}

/// What a config's `fetch_spec` gives: a checkout description, or an alias.
#[derive(Debug)]
pub enum SpecOrAlias {
    Spec(Spec),
    Alias(Alias),
}

impl View for Solution {
    type V = SolutionView;

    open spec fn view(&self) -> SolutionView {
        SolutionView {
            name: self.name@,
            url: self.url@,
            deps_file: self.deps_file@,
            custom_deps: self.custom_deps@,
            custom_vars: self.custom_vars@,
            protocol_override: opt_view(self.protocol_override),
        }
    }
}

/// The views of a sequence of solutions.
pub open spec fn solution_views(s: Seq<Solution>) -> Seq<SolutionView> {
    s.map_values(|x: Solution| x@)
}

impl View for Spec {
    type V = SpecView;

    open spec fn view(&self) -> SpecView {
        SpecView {
            solutions: solution_views(self.solutions@),
            target_os: views(self.target_os@),
            target_os_only: self.target_os_only@,
            cache_dir: opt_view(self.cache_dir),
            cache_mode: opt_view(self.cache_mode),
            with_branch_heads: self.with_branch_heads,
        }
    }
}

impl Default for Solution {
    fn default() -> (r: Solution)
        ensures
            r@ == SolutionView::empty(),
    {
        Solution {
            name: String::new(),
            url: String::new(),
            deps_file: String::new(),
            custom_deps: StringMap::new(),
            custom_vars: StringMap::new(),
            protocol_override: None,
        }
    }
}

impl Default for Spec {
    fn default() -> (r: Spec)
        ensures
            r@ == SpecView::empty(),
    {
        let r = Spec {
            solutions: Vec::new(),
            target_os: Vec::new(),
            target_os_only: String::new(),
            cache_dir: None,
            cache_mode: None,
            with_branch_heads: None,
        };
        assert(r@.solutions =~= Seq::<SolutionView>::empty());
        assert(r@.target_os =~= Seq::<Seq<char>>::empty());
        r
    }
}

/// Trait for all configs.
pub trait Config {
    fn fetch_spec(&self, props: &StringMap) -> SpecOrAlias;

    fn expected_roots(&self, props: &StringMap) -> String;
}

} // verus!
