//! Facts about the environment gclient runs in.
use vstd::prelude::*;
use crate::gclient_path::{is_path_prefix, path_starts_with};
use crate::text::{to_string, views};

verus! {

/// The components of the directory under which Cog workspaces live.
pub open spec fn cog_root() -> Seq<Seq<char>> {
    seq!["/"@, "google"@, "cog"@, "cloud"@]
}

/// Whether the current directory, given by its components, lies in a Cog
/// workspace, that is under `/google/cog/cloud`.
pub fn is_env_cog(cwd: &Vec<String>) -> (r: bool)
    ensures
        r == is_path_prefix(cog_root(), views(cwd@)),
{
    let root = vec![to_string("/"), to_string("google"), to_string("cog"), to_string("cloud")];
    assert(views(root@) =~= cog_root());
    path_starts_with(cwd, &root)
}

} // verus!
