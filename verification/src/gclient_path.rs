//! Locating the gclient root: paths are lists of components (as
//! `std::path::Path::components` gives them), and the root found above the
//! starting directory counts only if the starting directory lies within one
//! of the checkout's entries.
use vstd::prelude::*;
use crate::text::{nested_views, split, split_on, str_equal, views};

verus! {

/// Whether `base` is a leading part of `path`, component by component.
pub open spec fn is_path_prefix(base: Seq<Seq<char>>, path: Seq<Seq<char>>) -> bool {
    base.len() <= path.len() && path.take(base.len() as int) == base
}

/// The entry paths that lie under `root`, made relative to it, in order.
pub open spec fn relative_entry_dirs(paths: Seq<Seq<Seq<char>>>, root: Seq<Seq<char>>) -> Seq<
    Seq<Seq<char>>,
>
    decreases paths.len(),
{
    if paths.len() == 0 {
        Seq::empty()
    } else {
        let r = relative_entry_dirs(paths.drop_last(), root);
        if is_path_prefix(root, paths.last()) {
            r.push(paths.last().skip(root.len() as int))
        } else {
            r
        }
    }
}

/// Whether `rel` or one of its ancestors (but not the empty path) is one of
/// `dirs`.
pub open spec fn covered_by(rel: Seq<Seq<char>>, dirs: Seq<Seq<Seq<char>>>) -> bool {
    exists|k: int| 1 <= k <= rel.len() && #[trigger] dirs.contains(rel.take(k))
}

/// Whether the first `k` components of `path` are `base` exactly.
fn leading_components_equal(path: &Vec<String>, k: usize, base: &Vec<String>) -> (r: bool)
    requires
        k <= path@.len(),
    ensures
        r == (views(path@).take(k as int) == views(base@)),
{
    if base.len() != k {
        proof {
            assert(views(path@).take(k as int).len() != views(base@).len());
        }
        return false;
    }
    let mut i: usize = 0;
    while i < k
        invariant
            k <= path@.len(),
            k == base@.len(),
            i <= k,
            forall|j: int| 0 <= j < i ==> path@[j]@ == base@[j]@,
        decreases k - i,
    {
        if !str_equal(path[i].as_str(), base[i].as_str()) {
            proof {
                assert(views(path@).take(k as int)[i as int] != views(base@)[i as int]);
            }
            return false;
        }
        i = i + 1;
    }
    assert(views(path@).take(k as int) =~= views(base@));
    true
}

/// Whether `path` starts with the components of `base`, as
/// `Path::starts_with` decides it.
pub fn path_starts_with(path: &Vec<String>, base: &Vec<String>) -> (r: bool)
    ensures
        r == is_path_prefix(views(base@), views(path@)),
{
    if base.len() > path.len() {
        return false;
    }
    leading_components_equal(path, base.len(), base)
}

/// `path` relative to `base`, if `base` is a leading part of it, as
/// `Path::strip_prefix` gives it.
pub fn strip_path_prefix(path: &Vec<String>, base: &Vec<String>) -> (r: Option<Vec<String>>)
    ensures
        match r {
            Some(rest) => is_path_prefix(views(base@), views(path@)) && views(rest@) == views(
                path@,
            ).skip(base@.len() as int),
            None => !is_path_prefix(views(base@), views(path@)),
        },
{
    if !path_starts_with(path, base) {
        return None;
    }
    let n = path.len();
    let mut rest: Vec<String> = Vec::new();
    let mut i: usize = base.len();
    while i < n
        invariant
            n == path@.len(),
            base@.len() <= i <= n,
            views(rest@) == views(path@).subrange(base@.len() as int, i as int),
        decreases n - i,
    {
        rest.push(path[i].clone());
        assert(views(path@).subrange(base@.len() as int, i + 1) =~= views(path@).subrange(
            base@.len() as int,
            i as int,
        ).push(path@[i as int]@));
        assert(views(rest@) =~= views(path@).subrange(base@.len() as int, i as int).push(
            path@[i as int]@,
        ));
        i = i + 1;
    }
    assert(views(path@).subrange(base@.len() as int, n as int) =~= views(path@).skip(
        base@.len() as int,
    ));
    Some(rest)
}

/// The entry directories of a checkout relative to its root: the entries
/// outside the root are left out.
pub fn entry_directories(entry_paths: &Vec<Vec<String>>, root: &Vec<String>) -> (r: Vec<Vec<String>>)
    ensures
        nested_views(r@) == relative_entry_dirs(nested_views(entry_paths@), views(root@)),
{
    let n = entry_paths.len();
    let mut out: Vec<Vec<String>> = Vec::new();
    let mut i: usize = 0;
    assert(nested_views(entry_paths@).take(0) =~= Seq::<Seq<Seq<char>>>::empty());
    while i < n
        invariant
            n == entry_paths@.len(),
            i <= n,
            nested_views(out@) == relative_entry_dirs(nested_views(entry_paths@).take(i as int), views(root@)),
        decreases n - i,
    {
        let ghost before = nested_views(out@);
        assert(nested_views(entry_paths@).take(i + 1).drop_last() =~= nested_views(entry_paths@).take(
            i as int,
        ));
        match strip_path_prefix(&entry_paths[i], root) {
            Some(rel) => {
                let ghost rv = views(rel@);
                out.push(rel);
                assert(nested_views(out@) =~= before.push(rv));
            },
            None => {},
        }
        i = i + 1;
    }
    assert(nested_views(entry_paths@).take(n as int) =~= nested_views(entry_paths@));
    out
}

/// Whether one of `dirs` equals the first `k` components of `rel`.
fn has_leading_dir(dirs: &Vec<Vec<String>>, rel: &Vec<String>, k: usize) -> (r: bool)
    requires
        k <= rel@.len(),
    ensures
        r == nested_views(dirs@).contains(views(rel@).take(k as int)),
{
    let n = dirs.len();
    let mut i: usize = 0;
    while i < n
        invariant
            n == dirs@.len(),
            k <= rel@.len(),
            i <= n,
            forall|j: int| 0 <= j < i ==> nested_views(dirs@)[j] != views(rel@).take(k as int),
        decreases n - i,
    {
        if leading_components_equal(rel, k, &dirs[i]) {
            proof {
                assert(nested_views(dirs@)[i as int] == views(rel@).take(k as int));
            }
            return true;
        }
        i = i + 1;
    }
    false
}

/// Whether `relative_from` lies within one of `dirs`: it or one of its
/// ancestors, down to a single component, is one of them.
pub fn is_within_entries(relative_from: &Vec<String>, dirs: &Vec<Vec<String>>) -> (r: bool)
    ensures
        r == covered_by(views(relative_from@), nested_views(dirs@)),
{
    let mut k: usize = relative_from.len();
    while k > 0
        invariant
            k <= relative_from@.len(),
            forall|j: int| k < j <= relative_from@.len() ==> !#[trigger] nested_views(dirs@).contains(
                views(relative_from@).take(j),
            ),
        decreases k,
    {
        if has_leading_dir(dirs, relative_from, k) {
            return true;
        }
        k = k - 1;
    }
    false
}

/// A directory within an entry keeps lying within it however deep one goes.
pub proof fn lemma_descendants_stay_within(
    rel: Seq<Seq<char>>,
    more: Seq<Seq<char>>,
    dirs: Seq<Seq<Seq<char>>>,
)
    ensures
        covered_by(rel, dirs) ==> covered_by(rel + more, dirs),
{
    if covered_by(rel, dirs) {
        let k = choose|k: int| 1 <= k <= rel.len() && #[trigger] dirs.contains(rel.take(k));
        assert((rel + more).take(k) =~= rel.take(k));
    }
}

/// Putting the stripped prefix back in front gives the path again.
pub proof fn lemma_strip_prefix_inverse(base: Seq<Seq<char>>, path: Seq<Seq<char>>)
    requires
        is_path_prefix(base, path),
    ensures
        base + path.skip(base.len() as int) == path,
{
    assert(base + path.skip(base.len() as int) =~= path);
}

/// Index of the first `true` in `marked` (the nearest of a directory and its
/// ancestors, listed from the directory up, that holds the marker file).
pub fn nearest_marked(marked: &Vec<bool>) -> (r: Option<usize>)
    ensures
        match r {
            Some(i) => i < marked@.len() && marked@[i as int] && forall|j: int|
                0 <= j < i ==> !marked@[j],
            None => forall|j: int| 0 <= j < marked@.len() ==> !marked@[j],
        },
{
    let mut i: usize = 0;
    while i < marked.len()
        invariant
            i <= marked@.len(),
            forall|j: int| 0 <= j < i ==> !marked@[j],
        decreases marked@.len() - i,
    {
        if marked[i] {
            return Some(i);
        }
        i = i + 1;
    }
    None
}

/// Whether a piece of an entry key names a path component: empty pieces and
/// `.` do not.
pub open spec fn is_component(piece: Seq<char>) -> bool {
    piece.len() != 0 && piece != "."@
}

/// The pieces that name path components, in order.
pub open spec fn components_of(pieces: Seq<Seq<char>>) -> Seq<Seq<char>>
    decreases pieces.len(),
{
    if pieces.len() == 0 {
        Seq::empty()
    } else if is_component(pieces.last()) {
        components_of(pieces.drop_last()).push(pieces.last())
    } else {
        components_of(pieces.drop_last())
    }
}

/// The path of the entry `key` (a `/`-separated path) under `root`, as
/// components.
pub fn entry_key_path(root: &Vec<String>, key: &str) -> (r: Vec<String>)
    ensures
        views(r@) == views(root@) + components_of(split_on(key@, '/')),
{
    let pieces = split(key, '/');
    let mut r: Vec<String> = Vec::new();
    let mut i: usize = 0;
    while i < root.len()
        invariant
            i <= root@.len(),
            views(r@) == views(root@).take(i as int),
        decreases root@.len() - i,
    {
        let ghost before = views(r@);
        r.push(root[i].clone());
        assert(views(r@) =~= before.push(root@[i as int]@));
        assert(views(r@) =~= views(root@).take(i + 1));
        i = i + 1;
    }
    assert(views(root@).take(root@.len() as int) =~= views(root@));
    let mut k: usize = 0;
    assert(views(pieces@).take(0) =~= Seq::<Seq<char>>::empty());
    assert(views(root@) + components_of(Seq::<Seq<char>>::empty()) =~= views(root@));
    while k < pieces.len()
        invariant
            k <= pieces@.len(),
            views(r@) == views(root@) + components_of(views(pieces@).take(k as int)),
        decreases pieces@.len() - k,
    {
        let piece = &pieces[k];
        assert(views(pieces@).take(k + 1).drop_last() =~= views(pieces@).take(k as int));
        assert(views(pieces@).take(k + 1).last() == piece@);
        if piece.as_str().unicode_len() != 0 && !str_equal(piece.as_str(), ".") {
            let ghost before = views(r@);
            r.push(piece.clone());
            assert(views(r@) =~= before.push(piece@));
        }
        k = k + 1;
    }
    assert(views(pieces@).take(pieces@.len() as int) =~= views(pieces@));
    r
}

/// Whether the directory `root`, found to hold the marker file above or at
/// `from`, is the gclient root for `from`: it is `from` itself, or the
/// entries file is missing, or `from` lies within one of the entries.
pub open spec fn spec_accept_gclient_root(
    from: Seq<Seq<char>>,
    root: Seq<Seq<char>>,
    entries_present: bool,
    entry_paths: Seq<Seq<Seq<char>>>,
) -> bool {
    root == from || !entries_present || (is_path_prefix(root, from) && covered_by(
        from.skip(root.len() as int),
        relative_entry_dirs(entry_paths, root),
    ))
}

/// Decides whether `root` is the gclient root for `from`, given whether the
/// entries file is present and the paths of its entries.
pub fn accept_gclient_root(
    from: &Vec<String>,
    root: &Vec<String>,
    entries_present: bool,
    entry_paths: &Vec<Vec<String>>,
) -> (r: bool)
    ensures
        r == spec_accept_gclient_root(views(from@), views(root@), entries_present, nested_views(entry_paths@)),
{
    if from.len() == root.len() && leading_components_equal(from, root.len(), root) {
        assert(views(from@).take(root@.len() as int) =~= views(from@));
        return true;
    }
    proof {
        if views(root@) == views(from@) {
            assert(views(from@).take(root@.len() as int) =~= views(from@));
        }
    }
    if !entries_present {
        return true;
    }
    let dirs = entry_directories(entry_paths, root);
    match strip_path_prefix(from, root) {
        Some(relative_from) => is_within_entries(&relative_from, &dirs),
        None => false,
    }
}

/// An entry directory relative to `root` is the rest, below `root`, of an
/// entry path that lies under `root`.
proof fn lemma_relative_entry_dirs_contains(paths: Seq<Seq<Seq<char>>>, root: Seq<Seq<char>>, x: Seq<Seq<char>>)
    ensures
        relative_entry_dirs(paths, root).contains(x) <==> exists|e: int|
            0 <= e < paths.len() && is_path_prefix(root, #[trigger] paths[e]) && paths[e].skip(
                root.len() as int,
            ) == x,
    decreases paths.len(),
{
    if paths.len() > 0 {
        let init = paths.drop_last();
        lemma_relative_entry_dirs_contains(init, root, x);
        let r = relative_entry_dirs(init, root);
        let last = paths.last();
        let n = paths.len() - 1;
        if relative_entry_dirs(paths, root).contains(x) {
            if r.contains(x) {
                let e = choose|e: int|
                    0 <= e < init.len() && is_path_prefix(root, #[trigger] init[e]) && init[e].skip(
                        root.len() as int,
                    ) == x;
                assert(paths[e] == init[e]);
            } else {
                let q = relative_entry_dirs(paths, root);
                let w = choose|w: int| 0 <= w < q.len() && q[w] == x;
                assert(is_path_prefix(root, last));
                assert(q == r.push(last.skip(root.len() as int)));
                assert(w == r.len());
                assert(paths[n] == last);
            }
        }
        if exists|e: int|
            0 <= e < paths.len() && is_path_prefix(root, #[trigger] paths[e]) && paths[e].skip(
                root.len() as int,
            ) == x {
            let e = choose|e: int|
                0 <= e < paths.len() && is_path_prefix(root, #[trigger] paths[e]) && paths[e].skip(
                    root.len() as int,
                ) == x;
            if e < n {
                assert(init[e] == paths[e]);
                let w = choose|w: int| 0 <= w < r.len() && r[w] == x;
                if is_path_prefix(root, last) {
                    let q = r.push(last.skip(root.len() as int));
                    assert(q[w] == x);
                }
            } else {
                let q = r.push(last.skip(root.len() as int));
                assert(q[r.len() as int] == x);
            }
        }
    }
}

/// The gclient root found at `root` for the directory `from` is accepted
/// exactly when it is `from` itself, or the entries file is missing, or
/// `from` lies under `root` and one of the entry paths is `from` or one of
/// its ancestors while lying strictly below `root`.
pub proof fn lemma_accept_gclient_root(
    from: Seq<Seq<char>>,
    root: Seq<Seq<char>>,
    entries_present: bool,
    entry_paths: Seq<Seq<Seq<char>>>,
)
    ensures
        spec_accept_gclient_root(from, root, entries_present, entry_paths) <==> (from == root
            || !entries_present || (is_path_prefix(root, from) && exists|e: int|
            0 <= e < entry_paths.len() && #[trigger] is_path_prefix(entry_paths[e], from)
                && entry_paths[e].len() > root.len())),
{
    let r = root.len() as int;
    let rel = from.skip(r);
    let dirs = relative_entry_dirs(entry_paths, root);
    if is_path_prefix(root, from) {
        if covered_by(rel, dirs) {
            let k = choose|k: int| 1 <= k <= rel.len() && #[trigger] dirs.contains(rel.take(k));
            lemma_relative_entry_dirs_contains(entry_paths, root, rel.take(k));
            let e = choose|e: int|
                0 <= e < entry_paths.len() && is_path_prefix(root, #[trigger] entry_paths[e])
                    && entry_paths[e].skip(r) == rel.take(k);
            let pe = entry_paths[e];
            lemma_strip_prefix_inverse(root, pe);
            assert(pe =~= from.take(r + k)) by {
                assert(from.take(r) == root);
                assert(pe == root + rel.take(k));
            }
            assert(from.take(pe.len() as int) =~= pe);
            assert(is_path_prefix(entry_paths[e], from));
        }
        if exists|e: int|
            0 <= e < entry_paths.len() && #[trigger] is_path_prefix(entry_paths[e], from)
                && entry_paths[e].len() > root.len() {
            let e = choose|e: int|
                0 <= e < entry_paths.len() && #[trigger] is_path_prefix(entry_paths[e], from)
                    && entry_paths[e].len() > root.len();
            let pe = entry_paths[e];
            let k = pe.len() - r;
            assert(pe.take(r) =~= root) by {
                assert(from.take(pe.len() as int) == pe);
                assert(from.take(r) == root);
                assert forall|i: int| 0 <= i < r implies pe.take(r)[i] == root[i] by {
                    assert(pe[i] == from.take(pe.len() as int)[i]);
                    assert(root[i] == from.take(r)[i]);
                }
            }
            assert(pe.skip(r) =~= rel.take(k)) by {
                assert forall|i: int| 0 <= i < k implies pe.skip(r)[i] == rel.take(k)[i] by {
                    assert(pe[r + i] == from.take(pe.len() as int)[r + i]);
                }
            }
            lemma_relative_entry_dirs_contains(entry_paths, root, rel.take(k));
            assert(dirs.contains(rel.take(k)));
        }
    }
}

} // verus!
