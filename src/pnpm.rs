//! pnpm workspaces: which directories are member packages, and the package
//! records read from their manifests.

use vstd::prelude::*;
use crate::error::BakeError;
use crate::model::{declared_names, PackageJson, Engines};
use crate::paths::{is_under, joined, relative_steps, steps_below, join_steps};
use crate::text::views;
use crate::workspace::{PackageInfo, PackageView, WorkspaceInfo, node_version_of, package_views};

verus! {

#[verifier::external_type_specification]
#[verifier::external_body]
pub struct ExPattern(glob::Pattern);

#[verifier::external_type_specification]
#[verifier::external_body]
pub struct ExPatternError(glob::PatternError);

/// Whether `glob::Pattern::new` accepts a pattern.
pub uninterp spec fn glob_valid(pattern: Seq<char>) -> bool;

/// Whether the compiled `pattern` matches `path` under glob's default
/// match options.
pub uninterp spec fn glob_matches(pattern: Seq<char>, path: Seq<char>) -> bool;

/// A compiled membership pattern, with the text it was compiled from.
pub struct MembershipGlob {
    compiled: glob::Pattern,
    source: Ghost<Seq<char>>,
}

impl View for MembershipGlob {
    type V = Seq<char>;

    closed spec fn view(&self) -> Seq<char> {
        self.source@
    }
}

/// Relies on `glob::Pattern::new`: it compiles the pattern, or reports that
/// it is not a valid glob.
#[verifier::external_body]
pub(crate) fn compile_glob(pattern: &str) -> (r: Result<MembershipGlob, glob::PatternError>)
    ensures
        r is Ok <==> glob_valid(pattern@),
        r matches Ok(g) ==> g@ == pattern@,
{
    match glob::Pattern::new(pattern) {
        Ok(compiled) => Ok(MembershipGlob { compiled, source: Ghost(pattern@) }),
        Err(e) => Err(e),
    }
}

/// Relies on `glob::Pattern::matches`: whether the path matches the
/// compiled pattern.
#[verifier::external_body]
pub(crate) fn glob_accepts(g: &MembershipGlob, path: &str) -> (r: bool)
    ensures
        r == glob_matches(g@, path@),
{
    g.compiled.matches(path)
}

/// Compiles the membership patterns in order; the first one that is not a
/// valid glob is reported.
pub fn compile_patterns(patterns: &Vec<String>) -> (r: Result<Vec<MembershipGlob>, BakeError>)
    ensures
        r is Ok <==> forall|i: int| 0 <= i < patterns@.len() ==> glob_valid(#[trigger] patterns@[i]@),
        r matches Ok(v) ==> v@.len() == patterns@.len() && forall|i: int|
            0 <= i < v@.len() ==> #[trigger] v@[i]@ == patterns@[i]@,
        r matches Err(e) ==> exists|i: int|
            0 <= i < patterns@.len() && !glob_valid(#[trigger] patterns@[i]@) && (forall|j: int|
                0 <= j < i ==> glob_valid(#[trigger] patterns@[j]@)) && e == (BakeError::InvalidGlob {
                pattern: patterns@[i],
            }),
{
    let mut out: Vec<MembershipGlob> = Vec::new();
    let mut i: usize = 0;
    while i < patterns.len()
        invariant
            i <= patterns.len(),
            out@.len() == i,
            forall|j: int| 0 <= j < i ==> glob_valid(#[trigger] patterns@[j]@),
            forall|j: int| 0 <= j < i ==> #[trigger] out@[j]@ == patterns@[j]@,
        decreases patterns.len() - i,
    {
        match compile_glob(patterns[i].as_str()) {
            Ok(g) => out.push(g),
            Err(_) => {
                return Err(BakeError::InvalidGlob { pattern: patterns[i].clone() });
            },
        }
        i += 1;
    }
    Ok(out)
}

/// Whether some pattern matches the path.
pub open spec fn matched_by_any(globs: Seq<MembershipGlob>, path: Seq<char>) -> bool {
    exists|i: int| 0 <= i < globs.len() && glob_matches(#[trigger] globs[i]@, path)
}

/// Whether some membership pattern matches a path relative to the root.
pub fn matches_any(globs: &Vec<MembershipGlob>, relative: &str) -> (r: bool)
    ensures
        r == matched_by_any(globs@, relative@),
{
    let mut i: usize = 0;
    while i < globs.len()
        invariant
            i <= globs.len(),
            forall|j: int| 0 <= j < i ==> !glob_matches(#[trigger] globs@[j]@, relative@),
        decreases globs.len() - i,
    {
        if glob_accepts(&globs[i], relative) {
            return true;
        }
        i += 1;
    }
    false
}

/// A directory with a manifest is a member package when it lies under the
/// workspace root and its path relative to the root matches a pattern.
pub open spec fn is_member_dir(dir: Seq<char>, root: Seq<char>, globs: Seq<MembershipGlob>) -> bool {
    is_under(dir, root) && matched_by_any(globs, joined(steps_below(dir, root)))
}

/// Decides whether the directory `dir`, which holds a manifest, is a member
/// package of the workspace at `root`.
pub fn is_member(dir: &str, root: &str, globs: &Vec<MembershipGlob>) -> (r: bool)
    ensures
        r == is_member_dir(dir@, root@, globs@),
{
    match relative_steps(dir, root) {
        Some(below) => {
            let relative = join_steps(&below);
            matches_any(globs, relative.as_str())
        },
        None => false,
    }
}

/// Hidden entries (a name starting with `.`) are not searched for packages.
pub fn is_hidden(file_name: &str) -> (r: bool)
    ensures
        r == (file_name@.len() > 0 && file_name@[0] == '.'),
{
    file_name.unicode_len() > 0 && file_name.get_char(0) == '.'
}

/// A package found in the workspace.
#[derive(Clone, Debug)]
pub struct PnpmPackageInfo {
    pub name: String,
    pub version: String,
    pub path: String,
    /// Names of the runtime and development dependencies, each once.
    pub dependencies: Vec<String>,
    pub engines: Option<Engines>,
}

/// The root package and the member packages of a workspace.
#[derive(Clone, Debug)]
pub struct PnpmWorkspaceInfo {
    pub root_package: PnpmPackageInfo,
    pub packages: Vec<PnpmPackageInfo>,
}

fn add_names(out: &mut Vec<String>, deps: &Option<Vec<(String, String)>>)
    requires
        views(old(out)@).no_duplicates(),
    ensures
        views(final(out)@).no_duplicates(),
        views(final(out)@).to_set() == views(old(out)@).to_set() + crate::model::dependency_names(
            *deps,
        ).to_set(),
{
    let ghost start = views(out@).to_set();
    match deps {
        Some(list) => {
            let ghost names = list@.map_values(|e: (String, String)| e.0@);
            let mut i: usize = 0;
            while i < list.len()
                invariant
                    i <= list.len(),
                    names == list@.map_values(|e: (String, String)| e.0@),
                    views(out@).no_duplicates(),
                    views(out@).to_set() == start + names.take(i as int).to_set(),
                decreases list.len() - i,
            {
                let name = &list[i].0;
                let mut found = false;
                let mut k: usize = 0;
                while k < out.len()
                    invariant
                        k <= out.len(),
                        found ==> views(out@).contains(name@),
                        !found ==> forall|j: int| 0 <= j < k ==> #[trigger] out@[j]@ != name@,
                    decreases out.len() - k,
                {
                    if out[k] == *name {
                        assert(views(out@)[k as int] == name@);
                        found = true;
                    }
                    k += 1;
                }
                assert(names[i as int] == name@);
                assert(names.take(i + 1) =~= names.take(i as int).push(name@));
                if !found {
                    let ghost before = views(out@);
                    out.push(name.clone());
                    assert(views(out@) =~= before.push(name@));
                    assert forall|a: int, b: int| 0 <= a < b < views(out@).len() implies views(out@)[a] != views(out@)[b] by {
                        if b == before.len() {
                            assert(out@[a]@ != name@);
                        }
                    }
                    proof {
                        before.lemma_push_to_set_commute(name@);
                    }
                } else {
                    assert(views(out@).to_set().contains(name@));
                }
                proof {
                    names.take(i as int).lemma_push_to_set_commute(name@);
                }
                i += 1;
            }
            assert(names.take(list.len() as int) =~= names);
        },
        None => {
            assert(views(out@).to_set() =~= start + Seq::<Seq<char>>::empty().to_set());
        },
    }
}

impl PackageInfo for PnpmPackageInfo {
    open spec fn package_view(&self) -> PackageView {
        PackageView {
            name: self.name@,
            path: self.path@,
            version: self.version@,
            dependencies: views(self.dependencies@),
            node_version: node_version_of(self.engines),
        }
    }

    fn name(&self) -> (r: &str) {
        self.name.as_str()
    }

    fn path(&self) -> (r: &str) {
        self.path.as_str()
    }

    fn version(&self) -> (r: &str) {
        self.version.as_str()
    }

    fn dependencies(&self) -> (r: &Vec<String>) {
        &self.dependencies
    }

    fn node_version(&self) -> (r: String) {
        match &self.engines {
            Some(engines) => match &engines.node {
                Some(v) => v.clone(),
                None => String::new(),
            },
            None => String::new(),
        }
    }
}

impl WorkspaceInfo for PnpmWorkspaceInfo {
    type Package = PnpmPackageInfo;

    open spec fn root_view(&self) -> PackageView {
        self.root_package.package_view()
    }

    open spec fn member_views(&self) -> Seq<PackageView> {
        package_views(self.packages@)
    }

    fn root_package(&self) -> (r: &PnpmPackageInfo) {
        &self.root_package
    }

    fn packages(&self) -> (r: &Vec<PnpmPackageInfo>) {
        &self.packages
    }
}

impl PnpmPackageInfo {
    /// The package record of the manifest found in directory `path`: its
    /// dependency names are the runtime and development ones, each once.
    pub fn from_manifest(manifest: PackageJson, path: String) -> (r: PnpmPackageInfo)
        ensures
            r.name@ == manifest.name@,
            r.version@ == manifest.version@,
            r.path@ == path@,
            views(r.dependencies@).no_duplicates(),
            views(r.dependencies@).to_set() == declared_names(manifest).to_set(),
            r.engines == manifest.engines,
    {
        let mut dependencies: Vec<String> = Vec::new();
        assert(views(dependencies@) =~= seq![]);
        add_names(&mut dependencies, &manifest.dependencies);
        add_names(&mut dependencies, &manifest.dev_dependencies);
        proof {
            vstd::seq_lib::seq_to_set_distributes_over_add(
                crate::model::dependency_names(manifest.dependencies),
                crate::model::dependency_names(manifest.dev_dependencies),
            );
            assert(Seq::<Seq<char>>::empty().to_set() =~= Set::empty());
        }
        PnpmPackageInfo {
            name: manifest.name,
            version: manifest.version,
            path,
            dependencies,
            engines: manifest.engines,
        }
    }
}

} // verus!
