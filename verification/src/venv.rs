//! Discovery of the workspace virtual environments (`.venv`) whose
//! executables and installed Python libraries the language server should see.

use vstd::prelude::*;
use vstd::string::StringExecFns;
use crate::VyperExtension;
use crate::path::{extension, extension_of, has_root, join_path, parent_of, path_has_root, path_join, path_parent};
use crate::text::same_text;

verus! {

/// The candidate directories found for a workspace.
#[derive(Debug, PartialEq, Eq)]
pub struct WorkspaceVenv {
    /// Executable directories, for `PATH`.
    pub bin_dirs: Vec<String>,
    /// Library directories, for `PYTHONPATH`.
    pub site_packages: Vec<String>,
}

impl View for WorkspaceVenv {
    type V = (Seq<Seq<char>>, Seq<Seq<char>>);

    open spec fn view(&self) -> (Seq<Seq<char>>, Seq<Seq<char>>) {
        (self.bin_dirs.deep_view(), self.site_packages.deep_view())
    }
}

/// The Python minor versions probed when no interpreter is known, newest first.
pub open spec fn python_minors() -> Seq<Seq<char>> {
    seq!["3.15"@, "3.14"@, "3.13"@, "3.12"@, "3.11"@, "3.10"@]
}

/// `site-packages` of the given Python minor version inside a virtual environment.
pub open spec fn site_packages_in(venv_dir: Seq<char>, minor: Seq<char>) -> Seq<char> {
    path_join(path_join(path_join(venv_dir, "lib"@), "python"@ + minor), "site-packages"@)
}

/// The `site-packages` candidates of a virtual environment, one per probed minor version.
pub open spec fn fallback_candidates(venv_dir: Seq<char>) -> Seq<Seq<char>> {
    python_minors().map_values(|minor: Seq<char>| site_packages_in(venv_dir, minor))
}

/// `s` with `x` appended unless it already holds it.
pub open spec fn with_unique(s: Seq<Seq<char>>, x: Seq<char>) -> Seq<Seq<char>> {
    if s.contains(x) {
        s
    } else {
        s.push(x)
    }
}

/// The elements of `s` in order of first occurrence, each once.
pub open spec fn unique(s: Seq<Seq<char>>) -> Seq<Seq<char>>
    decreases s.len(),
{
    if s.len() == 0 {
        Seq::empty()
    } else {
        with_unique(unique(s.drop_last()), s.last())
    }
}

/// The path names the filesystem root and nothing more.
pub open spec fn is_filesystem_root(p: Seq<char>) -> bool {
    has_root(p) && path_parent(p) is None
}

/// How many directories, from the workspace upward, are searched.
pub open spec fn ancestor_limit() -> nat {
    7
}

/// `p` and its ancestors, at most `fuel` of them, stopping before the empty
/// path and the filesystem root.
pub open spec fn ancestors(p: Seq<char>, fuel: nat) -> Seq<Seq<char>>
    decreases fuel,
{
    if fuel == 0 || p.len() == 0 || is_filesystem_root(p) {
        Seq::empty()
    } else {
        match path_parent(p) {
            Some(q) => if q == p || q.len() == 0 {
                seq![p]
            } else {
                seq![p] + ancestors(q, (fuel - 1) as nat)
            },
            None => seq![p],
        }
    }
}

/// The virtual-environment directory under an ancestor.
pub open spec fn venv_under(dir: Seq<char>) -> Seq<char> {
    path_join(dir, ".venv"@)
}

/// The executable directory of the virtual environment under `dir`.
pub open spec fn bin_candidate(dir: Seq<char>, windows: bool) -> Seq<char> {
    path_join(venv_under(dir), if windows { "Scripts"@ } else { "bin"@ })
}

/// The library directories of the virtual environment under `dir`.
pub open spec fn site_candidates_of(dir: Seq<char>, windows: bool) -> Seq<Seq<char>> {
    if windows {
        seq![path_join(path_join(venv_under(dir), "Lib"@), "site-packages"@)]
    } else {
        fallback_candidates(venv_under(dir))
    }
}

/// Executable directory candidates of all `dirs`, in order.
pub open spec fn bin_candidates(dirs: Seq<Seq<char>>, windows: bool) -> Seq<Seq<char>>
    decreases dirs.len(),
{
    if dirs.len() == 0 {
        Seq::empty()
    } else {
        bin_candidates(dirs.drop_last(), windows).push(bin_candidate(dirs.last(), windows))
    }
}

/// Library directory candidates of all `dirs`, in order.
pub open spec fn site_candidates(dirs: Seq<Seq<char>>, windows: bool) -> Seq<Seq<char>>
    decreases dirs.len(),
{
    if dirs.len() == 0 {
        Seq::empty()
    } else {
        site_candidates(dirs.drop_last(), windows) + site_candidates_of(dirs.last(), windows)
    }
}

/// The virtual environments seen from `base`: for every ancestor, its
/// candidates, each kept once in order of first appearance.
pub open spec fn venv_for(base: Seq<char>, windows: bool) -> (Seq<Seq<char>>, Seq<Seq<char>>) {
    let dirs = ancestors(base, ancestor_limit());
    (unique(bin_candidates(dirs, windows)), unique(site_candidates(dirs, windows)))
}

/// The path names a Vyper source or interface file.
pub open spec fn is_vyper_file(p: Seq<char>) -> bool {
    extension(p) == Some("vy"@) || extension(p) == Some("vyi"@)
}

/// The directory searched from: the directory of a Vyper file, otherwise the path itself.
pub open spec fn normalized_base(root: Seq<char>) -> Seq<char> {
    if is_vyper_file(root) {
        match path_parent(root) {
            Some(q) => q,
            None => root,
        }
    } else {
        root
    }
}

proof fn lemma_unique_push(s: Seq<Seq<char>>, x: Seq<char>)
    ensures
        unique(s.push(x)) == with_unique(unique(s), x),
{
    assert(s.push(x).drop_last() =~= s);
}

pub(crate) proof fn lemma_contains_push(s: Seq<Seq<char>>, y: Seq<char>, x: Seq<char>)
    ensures
        s.push(y).contains(x) <==> (s.contains(x) || x == y),
{
    let q = s.push(y);
    if s.contains(x) {
        let k = choose|k: int| 0 <= k < s.len() && s[k] == x;
        assert(q[k] == x);
    }
    if x == y {
        assert(q[s.len() as int] == y);
    }
    if q.contains(x) {
        let k = choose|k: int| 0 <= k < q.len() && q[k] == x;
        if k < s.len() {
            assert(s[k] == x);
        }
    }
}

/// Keeping first occurrences: the result repeats nothing and holds exactly
/// the elements of `s`.
pub proof fn lemma_unique(s: Seq<Seq<char>>)
    ensures
        unique(s).no_duplicates(),
        forall|x: Seq<char>| unique(s).contains(x) <==> s.contains(x),
    decreases s.len(),
{
    if s.len() > 0 {
        let init = s.drop_last();
        let last = s.last();
        lemma_unique(init);
        let u = unique(init);
        assert(init.push(last) =~= s);
        assert forall|x: Seq<char>| unique(s).contains(x) <==> s.contains(x) by {
            lemma_contains_push(init, last, x);
            lemma_contains_push(u, last, x);
        }
        if !u.contains(last) {
            assert forall|a: int, b: int| 0 <= a < b < u.len() + 1 implies u.push(last)[a]
                != u.push(last)[b] by {
                if b == u.len() {
                    assert(u.push(last)[b] == last);
                    assert(u.push(last)[a] == u[a]);
                } else {
                    assert(u.push(last)[a] == u[a]);
                    assert(u.push(last)[b] == u[b]);
                }
            }
        }
    }
}

proof fn lemma_candidates_nonempty(dirs: Seq<Seq<char>>, windows: bool)
    ensures
        forall|j: int|
            0 <= j < bin_candidates(dirs, windows).len() ==> (#[trigger] bin_candidates(
                dirs,
                windows,
            )[j]).len() > 0,
        forall|j: int|
            0 <= j < site_candidates(dirs, windows).len() ==> (#[trigger] site_candidates(
                dirs,
                windows,
            )[j]).len() > 0,
    decreases dirs.len(),
{
    reveal_strlit("site-packages");
    reveal_strlit("Scripts");
    reveal_strlit("bin");
    if dirs.len() > 0 {
        let init = dirs.drop_last();
        let d = dirs.last();
        lemma_candidates_nonempty(init, windows);
        let b0 = bin_candidates(init, windows);
        let s0 = site_candidates(init, windows);
        let extra = site_candidates_of(d, windows);
        assert(bin_candidate(d, windows).len() > 0);
        assert forall|j: int| 0 <= j < b0.len() + 1 implies (#[trigger] b0.push(
            bin_candidate(d, windows),
        )[j]).len() > 0 by {
            if j < b0.len() {
                assert(b0.push(bin_candidate(d, windows))[j] == b0[j]);
            }
        }
        assert forall|j: int| 0 <= j < extra.len() implies (#[trigger] extra[j]).len() > 0 by {
            if !windows {
                assert(extra[j] == site_packages_in(venv_under(d), python_minors()[j]));
            }
        }
        assert forall|j: int| 0 <= j < s0.len() + extra.len() implies (#[trigger] (s0
            + extra)[j]).len() > 0 by {
            if j < s0.len() {
                assert((s0 + extra)[j] == s0[j]);
            } else {
                assert((s0 + extra)[j] == extra[j - s0.len()]);
            }
        }
    }
}

/// The workspace's candidate lists repeat nothing, hold only non-empty
/// paths, and hold every candidate of every searched directory.
pub proof fn lemma_venv_lists(base: Seq<char>, windows: bool)
    ensures
        venv_for(base, windows).0.no_duplicates(),
        venv_for(base, windows).1.no_duplicates(),
        forall|x: Seq<char>|
            venv_for(base, windows).0.contains(x) <==> bin_candidates(
                ancestors(base, ancestor_limit()),
                windows,
            ).contains(x),
        forall|x: Seq<char>|
            venv_for(base, windows).1.contains(x) <==> site_candidates(
                ancestors(base, ancestor_limit()),
                windows,
            ).contains(x),
        forall|j: int|
            0 <= j < venv_for(base, windows).0.len() ==> (#[trigger] venv_for(base, windows).0[j]).len()
                > 0,
        forall|j: int|
            0 <= j < venv_for(base, windows).1.len() ==> (#[trigger] venv_for(base, windows).1[j]).len()
                > 0,
{
    let dirs = ancestors(base, ancestor_limit());
    let bins = bin_candidates(dirs, windows);
    let sites = site_candidates(dirs, windows);
    lemma_unique(bins);
    lemma_unique(sites);
    lemma_candidates_nonempty(dirs, windows);
    assert forall|j: int| 0 <= j < unique(bins).len() implies (#[trigger] unique(bins)[j]).len()
        > 0 by {
        let x = unique(bins)[j];
        assert(unique(bins).contains(x));
        assert(bins.contains(x));
        let k = choose|k: int| 0 <= k < bins.len() && bins[k] == x;
        assert(bins[k].len() > 0);
    }
    assert forall|j: int| 0 <= j < unique(sites).len() implies (#[trigger] unique(sites)[j]).len()
        > 0 by {
        let x = unique(sites)[j];
        assert(unique(sites).contains(x));
        assert(sites.contains(x));
        let k = choose|k: int| 0 <= k < sites.len() && sites[k] == x;
        assert(sites[k].len() > 0);
    }
}

/// The searched directories: at most the limit of them, the first being the
/// starting path itself, each next one the parent of the one before, none
/// of them empty or the filesystem root.
pub proof fn lemma_ancestors(p: Seq<char>, fuel: nat)
    ensures
        ancestors(p, fuel).len() <= fuel,
        ancestors(p, fuel).len() > 0 <==> (fuel > 0 && p.len() > 0 && !is_filesystem_root(p)),
        ancestors(p, fuel).len() > 0 ==> ancestors(p, fuel)[0] == p,
        forall|i: int|
            0 <= i < ancestors(p, fuel).len() - 1 ==> path_parent(#[trigger] ancestors(p, fuel)[i])
                == Some(ancestors(p, fuel)[i + 1]),
        forall|i: int|
            0 <= i < ancestors(p, fuel).len() ==> (#[trigger] ancestors(p, fuel)[i]).len() > 0
                && !is_filesystem_root(ancestors(p, fuel)[i]),
    decreases fuel,
{
    if fuel > 0 && p.len() > 0 && !is_filesystem_root(p) {
        match path_parent(p) {
            Some(q) => {
                if q != p && q.len() > 0 {
                    let rest = ancestors(q, (fuel - 1) as nat);
                    lemma_ancestors(q, (fuel - 1) as nat);
                    let all = seq![p] + rest;
                    assert(ancestors(p, fuel) == all);
                    assert forall|i: int| 0 <= i < all.len() - 1 implies path_parent(
                        #[trigger] all[i],
                    ) == Some(all[i + 1]) by {
                        if i == 0 {
                            assert(all[1] == rest[0]);
                        } else {
                            assert(all[i] == rest[i - 1]);
                            assert(all[i + 1] == rest[i]);
                        }
                    }
                    assert forall|i: int| 0 <= i < all.len() implies (#[trigger] all[i]).len() > 0
                        && !is_filesystem_root(all[i]) by {
                        if i > 0 {
                            assert(all[i] == rest[i - 1]);
                        }
                    }
                }
            },
            None => {},
        }
    }
}

/// The first element of `s` is kept first.
proof fn lemma_unique_first(s: Seq<Seq<char>>)
    requires
        s.len() > 0,
    ensures
        unique(s).len() > 0,
        unique(s)[0] == s[0],
    decreases s.len(),
{
    let init = s.drop_last();
    if init.len() == 0 {
        assert(unique(init) == Seq::<Seq<char>>::empty());
        assert(s.last() == s[0]);
    } else {
        lemma_unique_first(init);
        assert(init[0] == s[0]);
    }
}

/// The candidates start with those of the first searched directory.
proof fn lemma_first_candidates(dirs: Seq<Seq<char>>, windows: bool)
    requires
        dirs.len() > 0,
    ensures
        bin_candidates(dirs, windows).len() > 0,
        bin_candidates(dirs, windows)[0] == bin_candidate(dirs[0], windows),
        site_candidates_of(dirs[0], windows).len() > 0,
        site_candidates(dirs, windows).len() > 0,
        site_candidates(dirs, windows)[0] == site_candidates_of(dirs[0], windows)[0],
    decreases dirs.len(),
{
    let init = dirs.drop_last();
    if init.len() == 0 {
        assert(dirs.last() == dirs[0]);
        assert(bin_candidates(init, windows) == Seq::<Seq<char>>::empty());
        assert(site_candidates(init, windows) == Seq::<Seq<char>>::empty());
        assert(site_candidates(dirs, windows) =~= site_candidates_of(dirs[0], windows));
    } else {
        lemma_first_candidates(init, windows);
        assert(init[0] == dirs[0]);
        assert(site_candidates(dirs, windows)[0] == site_candidates(init, windows)[0]);
    }
}

/// The searched directories start at `base`, so the candidate lists start
/// with `base`'s own virtual-environment directories, whenever `base` is
/// neither empty nor the filesystem root.
pub proof fn lemma_venv_starts_at_base(base: Seq<char>, windows: bool)
    requires
        base.len() > 0,
        !is_filesystem_root(base),
    ensures
        venv_for(base, windows).0.len() > 0,
        venv_for(base, windows).0[0] == bin_candidate(base, windows),
        venv_for(base, windows).1.len() > 0,
        venv_for(base, windows).1[0] == site_candidates_of(base, windows)[0],
{
    let dirs = ancestors(base, ancestor_limit());
    lemma_ancestors(base, ancestor_limit());
    lemma_first_candidates(dirs, windows);
    lemma_unique_first(bin_candidates(dirs, windows));
    lemma_unique_first(site_candidates(dirs, windows));
}

impl VyperExtension {
    /// How many times the search moves to a parent directory.
    pub const MAX_VENV_ANCESTOR_STEPS: usize = 6;

    /// The Python minor versions probed, newest first.
    pub const FALLBACK_PYTHON_MINORS: [&'static str; 6] = ["3.15", "3.14", "3.13", "3.12", "3.11", "3.10"];

    /// The directory to search from for a worktree root: a `.vy` or `.vyi`
    /// file is replaced by its directory.
    pub fn normalized_worktree_base(root_path: &str) -> (r: String)
        ensures
            r@ == normalized_base(root_path@),
    {
        let looks_like_file = match extension_of(root_path) {
            Some(ext) => same_text(ext.as_str(), "vy") || same_text(ext.as_str(), "vyi"),
            None => false,
        };
        if looks_like_file {
            match parent_of(root_path) {
                Some(parent) => parent,
                None => String::from_str(root_path),
            }
        } else {
            String::from_str(root_path)
        }
    }

    /// The `site-packages` candidates of a virtual environment, one per
    /// probed Python minor version, newest first.
    pub fn fallback_site_packages(venv_dir: &str) -> (r: Vec<String>)
        ensures
            r.deep_view() == fallback_candidates(venv_dir@),
    {
        let minors = Self::FALLBACK_PYTHON_MINORS;
        assert(minors@.map_values(|m: &str| m@) =~= python_minors());
        let lib = join_path(venv_dir, "lib");
        let mut r: Vec<String> = Vec::new();
        let mut i: usize = 0;
        while i < minors.len()
            invariant
                minors@.map_values(|m: &str| m@) == python_minors(),
                lib@ == path_join(venv_dir@, "lib"@),
                i <= minors.len(),
                r.deep_view() =~= python_minors().take(i as int).map_values(
                    |minor: Seq<char>| site_packages_in(venv_dir@, minor),
                ),
            decreases minors.len() - i,
        {
            let mut dir_name = String::from_str("python");
            dir_name.append(minors[i]);
            let versioned = join_path(lib.as_str(), dir_name.as_str());
            let candidate = join_path(versioned.as_str(), "site-packages");
            let ghost before = r.deep_view();
            proof {
                let minor = python_minors()[i as int];
                assert(minors@.map_values(|m: &str| m@)[i as int] == minors@[i as int]@);
                assert(dir_name@ == "python"@ + minor);
                assert(candidate@ == site_packages_in(venv_dir@, minor));
                assert(python_minors().take(i + 1).map_values(
                    |m: Seq<char>| site_packages_in(venv_dir@, m),
                ) =~= python_minors().take(i as int).map_values(
                    |m: Seq<char>| site_packages_in(venv_dir@, m),
                ).push(candidate@));
            }
            r.push(candidate);
            assert(r.deep_view() =~= before.push(candidate@));
            i = i + 1;
        }
        assert(python_minors().take(6) =~= python_minors());
        r
    }

    /// Appends `path` unless `paths` already holds the same text.
    pub fn push_unique(paths: &mut Vec<String>, path: String)
        ensures
            final(paths).deep_view() == with_unique(old(paths).deep_view(), path@),
    {
        let mut i: usize = 0;
        while i < paths.len()
            invariant
                i <= paths.len(),
                paths.deep_view() == old(paths).deep_view(),
                forall|j: int| 0 <= j < i ==> paths.deep_view()[j] != path@,
            decreases paths.len() - i,
        {
            if paths[i] == path {
                assert(paths.deep_view()[i as int] == path@);
                return;
            }
            i = i + 1;
        }
        let ghost before = paths.deep_view();
        paths.push(path);
        assert(paths.deep_view() =~= before.push(path@));
    }

    /// Whether `path` names the filesystem root alone.
    pub fn is_filesystem_root(path: &str) -> (r: bool)
        ensures
            r == is_filesystem_root(path@),
    {
        path_has_root(path) && parent_of(path).is_none()
    }

    /// `base` and its ancestors, nearest first, at most
    /// `MAX_VENV_ANCESTOR_STEPS + 1` of them, stopping before the empty path
    /// and the filesystem root.
    pub fn ancestor_dirs(base: &str) -> (r: Vec<String>)
        ensures
            r.deep_view() == ancestors(base@, ancestor_limit()),
    {
        let mut current = String::from_str(base);
        let mut result: Vec<String> = Vec::new();
        let mut step: usize = 0;
        while step <= Self::MAX_VENV_ANCESTOR_STEPS
            invariant_except_break
                step <= Self::MAX_VENV_ANCESTOR_STEPS + 1,
                result.deep_view() + ancestors(current@, (7 - step) as nat) == ancestors(
                    base@,
                    ancestor_limit(),
                ),
            ensures
                result.deep_view() == ancestors(base@, ancestor_limit()),
            decreases Self::MAX_VENV_ANCESTOR_STEPS + 1 - step,
        {
            let ghost fuel = (7 - step) as nat;
            let ghost before = result.deep_view();
            if current.as_str().is_empty() || Self::is_filesystem_root(current.as_str()) {
                assert(before + ancestors(current@, fuel) =~= before);
                break;
            }
            let parent = parent_of(current.as_str());
            result.push(current.clone());
            assert(result.deep_view() =~= before.push(current@));
            match parent {
                None => {
                    assert(before + ancestors(current@, fuel) =~= before.push(current@));
                    break;
                },
                Some(parent) => {
                    if parent == current || parent.as_str().is_empty() {
                        assert(before + ancestors(current@, fuel) =~= before.push(current@));
                        break;
                    }
                    assert(before + ancestors(current@, fuel) =~= before.push(current@)
                        + ancestors(parent@, (fuel - 1) as nat));
                    current = parent;
                },
            }
            step = step + 1;
        }
        assert(result.deep_view() + ancestors(current@, 0) =~= result.deep_view());
        result
    }

    /// The candidate directories of the virtual environments in `base` and its
    /// ancestors, for the given platform, each kept once.
    pub fn workspace_venv_for_base_with_platform(base: &str, is_windows: bool) -> (r:
        WorkspaceVenv)
        ensures
            r@ == venv_for(base@, is_windows),
    {
        let dirs = Self::ancestor_dirs(base);
        let ghost ds = dirs.deep_view();
        let mut bin_dirs: Vec<String> = Vec::new();
        let mut site_packages: Vec<String> = Vec::new();
        let mut i: usize = 0;
        while i < dirs.len()
            invariant
                ds == dirs.deep_view(),
                ds == ancestors(base@, ancestor_limit()),
                i <= dirs.len(),
                bin_dirs.deep_view() == unique(bin_candidates(ds.take(i as int), is_windows)),
                site_packages.deep_view() == unique(
                    site_candidates(ds.take(i as int), is_windows),
                ),
            decreases dirs.len() - i,
        {
            let ghost d = ds[i as int];
            assert(dirs@[i as int]@ == d);
            assert(ds.take(i + 1).drop_last() =~= ds.take(i as int));
            let venv_dir = join_path(dirs[i].as_str(), ".venv");
            if is_windows {
                let bin = join_path(venv_dir.as_str(), "Scripts");
                proof {
                    lemma_unique_push(bin_candidates(ds.take(i as int), is_windows), bin@);
                }
                Self::push_unique(&mut bin_dirs, bin);
                let lib = join_path(venv_dir.as_str(), "Lib");
                let site = join_path(lib.as_str(), "site-packages");
                proof {
                    let prev = site_candidates(ds.take(i as int), is_windows);
                    lemma_unique_push(prev, site@);
                    assert(prev + site_candidates_of(d, is_windows) =~= prev.push(site@));
                }
                Self::push_unique(&mut site_packages, site);
            } else {
                let bin = join_path(venv_dir.as_str(), "bin");
                proof {
                    lemma_unique_push(bin_candidates(ds.take(i as int), is_windows), bin@);
                }
                Self::push_unique(&mut bin_dirs, bin);
                let fallback = Self::fallback_site_packages(venv_dir.as_str());
                let ghost prev = site_candidates(ds.take(i as int), is_windows);
                let ghost fb = fallback.deep_view();
                let mut j: usize = 0;
                while j < fallback.len()
                    invariant
                        fb == fallback.deep_view(),
                        fb == site_candidates_of(d, is_windows),
                        !is_windows,
                        j <= fallback.len(),
                        site_packages.deep_view() == unique(prev + fb.take(j as int)),
                    decreases fallback.len() - j,
                {
                    let site = fallback[j].clone();
                    proof {
                        assert(prev + fb.take(j + 1) =~= (prev + fb.take(j as int)).push(site@));
                        lemma_unique_push(prev + fb.take(j as int), site@);
                    }
                    Self::push_unique(&mut site_packages, site);
                    j = j + 1;
                }
                assert(fb.take(fallback.len() as int) =~= fb);
            }
            i = i + 1;
        }
        assert(ds.take(dirs.len() as int) =~= ds);
        WorkspaceVenv { bin_dirs, site_packages }
    }
}

} // verus!
