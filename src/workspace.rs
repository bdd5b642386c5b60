//! Dependency resolution: each member package's dependencies on other
//! packages of the workspace, by build-target name.

use vstd::prelude::*;
use vstd::string::StringExecFns;
use crate::names::{sanitize_docker_name, sanitized};
use crate::order::{insert_sorted, strictly_sorted};
use crate::text::views;

verus! {

/// What resolution reads of a package.
pub struct PackageView {
    pub name: Seq<char>,
    pub path: Seq<char>,
    pub version: Seq<char>,
    /// Declared dependency names, runtime and development.
    pub dependencies: Seq<Seq<char>>,
    /// The runtime version the package asks for, or empty.
    pub node_version: Seq<char>,
}

/// A package as a package manager's workspace resolver found it.
pub trait PackageInfo {
    spec fn package_view(&self) -> PackageView;

    fn name(&self) -> (r: &str)
        ensures
            r@ == self.package_view().name,
    ;

    fn path(&self) -> (r: &str)
        ensures
            r@ == self.package_view().path,
    ;

    fn version(&self) -> (r: &str)
        ensures
            r@ == self.package_view().version,
    ;

    fn dependencies(&self) -> (r: &Vec<String>)
        ensures
            views(r@) == self.package_view().dependencies,
    ;

    fn node_version(&self) -> (r: String)
        ensures
            r@ == self.package_view().node_version,
    ;

    /// The package's build-target name.
    fn sanitized_name(&self) -> (r: String)
        ensures
            r@ == sanitized(self.package_view().name),
    {
        sanitize_docker_name(self.name())
    }
}

pub open spec fn package_views<P: PackageInfo>(v: Seq<P>) -> Seq<PackageView> {
    v.map_values(|p: P| p.package_view())
}

/// The root package and the member packages of one workspace, as a
/// resolver for one package manager found them.
pub trait WorkspaceInfo {
    type Package: PackageInfo;

    spec fn root_view(&self) -> PackageView;

    spec fn member_views(&self) -> Seq<PackageView>;

    fn root_package(&self) -> (r: &Self::Package)
        ensures
            r.package_view() == self.root_view(),
    ;

    fn packages(&self) -> (r: &Vec<Self::Package>)
        ensures
            package_views(r@) == self.member_views(),
    ;
}

/// The target name of the workspace's root package.
pub open spec fn root_target() -> Seq<char> {
    seq!['r', 'o', 'o', 't']
}

/// Makes the root package's target name.
pub fn root_target_name() -> (r: String)
    ensures
        r@ == root_target(),
{
    let r = String::from_str("root");
    proof {
        reveal_strlit("root");
    }
    r
}

/// The target names of the member packages.
pub open spec fn member_names(members: Seq<PackageView>) -> Set<Seq<char>> {
    Set::new(|s: Seq<char>| exists|i: int| 0 <= i < members.len() && sanitized(#[trigger] members[i].name) == s)
}

/// The member targets that `member` depends on: each declared dependency
/// whose sanitized name is the target name of another member package. The
/// root is left out: every member depends on it anyway.
pub open spec fn kept_dependencies(member: PackageView, members: Seq<PackageView>) -> Set<Seq<char>> {
    Set::new(
        |s: Seq<char>|
            {
                &&& exists|k: int|
                    0 <= k < member.dependencies.len() && sanitized(#[trigger] member.dependencies[k]) == s
                &&& member_names(members).contains(s)
                &&& s != sanitized(member.name)
                &&& s != root_target()
            },
    )
}

/// `deps` is the resolved dependency list of `member`: the root target first,
/// then the kept dependencies in strictly increasing lexicographic order.
pub open spec fn is_resolved_list(
    deps: Seq<Seq<char>>,
    member: PackageView,
    members: Seq<PackageView>,
) -> bool {
    &&& deps.len() >= 1
    &&& deps[0] == root_target()
    &&& strictly_sorted(deps.skip(1))
    &&& deps.skip(1).to_set() == kept_dependencies(member, members)
}

/// A member package with its resolved dependencies.
#[derive(Clone, Debug)]
pub struct Package {
    /// The build-target name: the sanitized manifest name.
    pub name: String,
    pub path: String,
    pub version: String,
    /// Target names: the root target first, then the other workspace
    /// packages this one depends on, in lexicographic order.
    pub dependencies: Vec<String>,
}

/// A resolved workspace.
#[derive(Clone, Debug)]
pub struct Workspace {
    /// The root package's sanitized name.
    pub name: String,
    pub path: String,
    pub version: String,
    /// The runtime version the root manifest asks for (`engines.node`), or
    /// empty.
    pub node_version: String,
    /// One entry per member package, in the order they were given.
    pub packages: Vec<Package>,
}

/// `pkg` is what resolution makes of the member `members[i]`.
pub open spec fn resolves_member(pkg: Package, members: Seq<PackageView>, i: int) -> bool {
    &&& pkg.name@ == sanitized(members[i].name)
    &&& pkg.path@ == members[i].path
    &&& pkg.version@ == members[i].version
    &&& is_resolved_list(views(pkg.dependencies@), members[i], members)
}

fn contains_name(names: &Vec<String>, s: &String) -> (r: bool)
    ensures
        r == views(names@).contains(s@),
{
    let mut k: usize = 0;
    while k < names.len()
        invariant
            k <= names.len(),
            forall|j: int| 0 <= j < k ==> #[trigger] names@[j]@ != s@,
        decreases names.len() - k,
    {
        if names[k] == *s {
            assert(views(names@)[k as int] == s@);
            return true;
        }
        k += 1;
    }
    assert forall|j: int| 0 <= j < views(names@).len() implies views(names@)[j] != s@ by {
        assert(views(names@)[j] == names@[j]@);
    }
    false
}

fn resolve_member<P: PackageInfo>(member: &P, members: &Vec<P>, names: &Vec<String>) -> (r: Vec<String>)
    requires
        names@.len() == members@.len(),
        forall|i: int|
            0 <= i < names@.len() ==> #[trigger] names@[i]@ == sanitized(package_views(members@)[i].name),
    ensures
        is_resolved_list(views(r@), member.package_view(), package_views(members@)),
{
    let ghost m = member.package_view();
    let ghost ms = package_views(members@);
    let own = sanitize_docker_name(member.name());
    let root = root_target_name();
    let declared = member.dependencies();
    let mut others: Vec<String> = Vec::new();
    let ghost kept = kept_dependencies(m, ms);
    assert(views(others@) =~= seq![]);
    let mut k: usize = 0;
    while k < declared.len()
        invariant
            k <= declared.len(),
            views(declared@) == m.dependencies,
            own@ == sanitized(m.name),
            root@ == root_target(),
            names@.len() == ms.len(),
            forall|i: int| 0 <= i < names@.len() ==> #[trigger] names@[i]@ == sanitized(ms[i].name),
            kept == kept_dependencies(m, ms),
            strictly_sorted(views(others@)),
            forall|s: Seq<char>| #[trigger] views(others@).to_set().contains(s) <==> (kept.contains(s) && exists|j: int|
                0 <= j < k && sanitized(#[trigger] m.dependencies[j]) == s),
        decreases declared.len() - k,
    {
        let s = sanitize_docker_name(declared[k].as_str());
        assert(m.dependencies[k as int] == declared@[k as int]@);
        let in_workspace = contains_name(names, &s);
        proof {
            if views(names@).contains(s@) {
                let i = choose|i: int| 0 <= i < views(names@).len() && views(names@)[i] == s@;
                assert(names@[i]@ == s@);
                assert(member_names(ms).contains(s@));
            }
            if member_names(ms).contains(s@) {
                let i = choose|i: int| 0 <= i < ms.len() && sanitized(#[trigger] ms[i].name) == s@;
                assert(views(names@)[i] == s@);
            }
        }
        if in_workspace && s != own && s != root {
            insert_sorted(&mut others, s);
        }
        assert forall|t: Seq<char>| #[trigger] views(others@).to_set().contains(t) <==> (kept.contains(t) && exists|j: int|
                0 <= j < k + 1 && sanitized(#[trigger] m.dependencies[j]) == t) by {
            if t == s@ {
                assert(sanitized(m.dependencies[k as int]) == t);
            }
        }
        k += 1;
    }
    assert(views(others@).to_set() =~= kept);
    let mut deps: Vec<String> = Vec::new();
    deps.push(root);
    let mut j: usize = 0;
    while j < others.len()
        invariant
            j <= others.len(),
            deps@.len() == j + 1,
            deps@[0]@ == root_target(),
            forall|t: int| 0 <= t < j ==> #[trigger] deps@[t + 1]@ == others@[t]@,
        decreases others.len() - j,
    {
        deps.push(others[j].clone());
        j += 1;
    }
    assert(views(deps@).skip(1) =~= views(others@));
    deps
}

/// The runtime version a manifest's `engines` asks for, or empty.
pub open spec fn node_version_of(engines: Option<crate::model::Engines>) -> Seq<char> {
    match engines {
        Some(e) => match e.node {
            Some(v) => v@,
            None => seq![],
        },
        None => seq![],
    }
}

/// `packages` is what resolution makes of `members`, one for one.
pub open spec fn resolves_members(packages: Seq<Package>, members: Seq<PackageView>) -> bool {
    &&& packages.len() == members.len()
    &&& forall|i: int| 0 <= i < packages.len() ==> resolves_member(#[trigger] packages[i], members, i)
}

/// `ws` is the resolution of the workspace with root package `root` and
/// member packages `members`.
pub open spec fn resolves(ws: Workspace, root: PackageView, members: Seq<PackageView>) -> bool {
    &&& ws.name@ == sanitized(root.name)
    &&& ws.node_version@ == root.node_version
    &&& ws.path@ == root.path
    &&& ws.version@ == root.version
    &&& resolves_members(ws.packages@, members)
}

/// A dependency on another package of the workspace is kept: when a
/// member declares a dependency whose sanitized name is the target name of
/// another member, that name is among the member's resolved dependencies.
pub proof fn lemma_workspace_dependency_kept(
    members: Seq<PackageView>,
    packages: Seq<Package>,
    i: int,
    k: int,
    q: int,
)
    requires
        resolves_members(packages, members),
        0 <= i < members.len(),
        0 <= k < members[i].dependencies.len(),
        0 <= q < members.len(),
        sanitized(members[i].dependencies[k]) == sanitized(members[q].name),
        sanitized(members[q].name) != sanitized(members[i].name),
    ensures
        views(packages[i].dependencies@).contains(sanitized(members[q].name)),
{
    let deps = views(packages[i].dependencies@);
    let s = sanitized(members[q].name);
    assert(resolves_member(packages[i], members, i));
    if s == root_target() {
        assert(deps[0] == s);
    } else {
        assert(member_names(members).contains(s));
        assert(kept_dependencies(members[i], members).contains(s));
        assert(deps.skip(1).to_set().contains(s));
        let j = choose|j: int| 0 <= j < deps.skip(1).len() && deps.skip(1)[j] == s;
        assert(deps[j + 1] == s);
    }
}

/// A dependency outside the workspace is dropped: a name that is neither
/// the root target nor the target name of a member package is not among any
/// member's resolved dependencies.
pub proof fn lemma_outside_dependency_dropped(
    members: Seq<PackageView>,
    packages: Seq<Package>,
    i: int,
    name: Seq<char>,
)
    requires
        resolves_members(packages, members),
        0 <= i < members.len(),
        !member_names(members).contains(name),
        name != root_target(),
    ensures
        !views(packages[i].dependencies@).contains(name),
{
    let deps = views(packages[i].dependencies@);
    assert(resolves_member(packages[i], members, i));
    if deps.contains(name) {
        let j = choose|j: int| 0 <= j < deps.len() && deps[j] == name;
        assert(j != 0);
        assert(deps.skip(1)[j - 1] == name);
        assert(deps.skip(1).to_set().contains(name));
    }
}

impl Workspace {
    /// Resolves a workspace: each member's declared dependencies are kept
    /// where they name another member package, by target name, and every
    /// member depends on the root target first.
    pub fn new<W: WorkspaceInfo>(workspace_info: &W) -> (r: Workspace)
        ensures
            resolves(r, workspace_info.root_view(), workspace_info.member_views()),
    {
        let root = workspace_info.root_package();
        let members = workspace_info.packages();
        let ghost ms = package_views(members@);
        let mut names: Vec<String> = Vec::new();
        let mut i: usize = 0;
        while i < members.len()
            invariant
                i <= members.len(),
                ms == package_views(members@),
                names@.len() == i,
                forall|t: int| 0 <= t < i ==> #[trigger] names@[t]@ == sanitized(ms[t].name),
            decreases members.len() - i,
        {
            names.push(members[i].sanitized_name());
            i += 1;
        }
        let mut packages: Vec<Package> = Vec::new();
        let mut i: usize = 0;
        while i < members.len()
            invariant
                i <= members.len(),
                ms == package_views(members@),
                names@.len() == members@.len(),
                forall|t: int| 0 <= t < names@.len() ==> #[trigger] names@[t]@ == sanitized(ms[t].name),
                packages@.len() == i,
                forall|t: int| 0 <= t < i ==> resolves_member(#[trigger] packages@[t], ms, t),
            decreases members.len() - i,
        {
            let member = &members[i];
            let dependencies = resolve_member(member, members, &names);
            packages.push(
                Package {
                    name: names[i].clone(),
                    path: String::from_str(member.path()),
                    version: String::from_str(member.version()),
                    dependencies,
                },
            );
            i += 1;
        }
        Workspace {
            name: root.sanitized_name(),
            path: String::from_str(root.path()),
            version: String::from_str(root.version()),
            node_version: root.node_version(),
            packages,
        }
    }
}

} // verus!

verus! {

/// The index of the last package named `name`, or -1.
pub open spec fn last_named(pkgs: Seq<Package>, name: Seq<char>) -> int
    decreases pkgs.len(),
{
    if pkgs.len() == 0 {
        -1
    } else if pkgs.last().name@ == name {
        pkgs.len() - 1
    } else {
        last_named(pkgs.drop_last(), name)
    }
}

proof fn lemma_last_named_range(pkgs: Seq<Package>, name: Seq<char>)
    ensures
        -1 <= last_named(pkgs, name) < pkgs.len(),
        last_named(pkgs, name) >= 0 ==> pkgs[last_named(pkgs, name)].name@ == name,
    decreases pkgs.len(),
{
    if pkgs.len() > 0 {
        lemma_last_named_range(pkgs.drop_last(), name);
    }
}

/// The path of the package behind a target name: the workspace root for the
/// root target, else the last member package of that name (empty if none).
pub open spec fn target_path(ws: Workspace, name: Seq<char>) -> Seq<char> {
    if name == root_target() {
        ws.path@
    } else if last_named(ws.packages@, name) >= 0 {
        ws.packages@[last_named(ws.packages@, name)].path@
    } else {
        seq![]
    }
}

impl Workspace {
    fn find_last(&self, name: &str) -> (r: Option<usize>)
        ensures
            match r {
                Some(i) => i as int == last_named(self.packages@, name@),
                None => last_named(self.packages@, name@) == -1,
            },
    {
        let key = String::from_str(name);
        let mut i: usize = self.packages.len();
        assert(self.packages@.take(i as int) =~= self.packages@);
        while i > 0
            invariant
                i <= self.packages.len(),
                key@ == name@,
                last_named(self.packages@, name@) == last_named(self.packages@.take(i as int), name@),
            decreases i,
        {
            let ghost pre = self.packages@.take(i as int);
            assert(pre.drop_last() =~= self.packages@.take(i - 1));
            if self.packages[i - 1].name == key {
                return Some(i - 1);
            }
            i -= 1;
        }
        None
    }

    fn path_of_target(&self, name: &String) -> (r: String)
        ensures
            r@ == target_path(*self, name@),
    {
        proof {
            lemma_last_named_range(self.packages@, name@);
        }
        if *name == root_target_name() {
            self.path.clone()
        } else {
            match self.find_last(name.as_str()) {
                Some(i) => self.packages[i].path.clone(),
                None => String::new(),
            }
        }
    }

    /// The dependencies of the package with target name `package_name`,
    /// each with the path of the package behind it; empty where no package
    /// has that name.
    pub fn get_dependencies(&self, package_name: &str) -> (r: Vec<(String, String)>)
        ensures
            last_named(self.packages@, package_name@) == -1 ==> r@.len() == 0,
            last_named(self.packages@, package_name@) >= 0 ==> {
                let deps = self.packages@[last_named(self.packages@, package_name@)].dependencies@;
                &&& r@.len() == deps.len()
                &&& forall|k: int|
                    0 <= k < deps.len() ==> (#[trigger] r@[k]).0@ == deps[k]@ && r@[k].1@ == target_path(
                        *self,
                        deps[k]@,
                    )
            },
    {
        proof {
            lemma_last_named_range(self.packages@, package_name@);
        }
        let mut out: Vec<(String, String)> = Vec::new();
        match self.find_last(package_name) {
            Some(i) => {
                let deps = &self.packages[i].dependencies;
                let mut k: usize = 0;
                while k < deps.len()
                    invariant
                        k <= deps.len(),
                        out@.len() == k,
                        forall|j: int|
                            0 <= j < k ==> (#[trigger] out@[j]).0@ == deps@[j]@ && out@[j].1@ == target_path(
                                *self,
                                deps@[j]@,
                            ),
                    decreases deps.len() - k,
                {
                    out.push((deps[k].clone(), self.path_of_target(&deps[k])));
                    k += 1;
                }
            },
            None => {},
        }
        out
    }
}

} // verus!
