//! Building the descriptor of a resolved workspace.

use vstd::prelude::*;
use vstd::string::StringExecFns;
use crate::bake::{
    BakeFile, Target, TargetView, bake_dockerfile, bake_dockerfile_name, contexts_for, image_tag,
    root_target_view,
};
use crate::entries::{has_key, upsert};
use crate::names::sanitized;
use crate::paths::context_of;
use crate::text::{copy_strings, views};
use crate::workspace::{Package, PackageView, Workspace, member_names, resolves_member, resolves_members, root_target};

verus! {

/// The target of a member package.
pub open spec fn member_target(pkg: Package, root_path: Seq<char>) -> TargetView {
    TargetView {
        context: context_of(pkg.path@, root_path),
        dockerfile: bake_dockerfile(),
        tags: seq![image_tag(pkg.name@, pkg.version@)],
        depends_on: views(pkg.dependencies@),
        contexts: contexts_for(context_of(pkg.path@, root_path)),
    }
}

/// The target table after adding the root target and then the first `n`
/// member targets; a later member of the same name takes the place of an
/// earlier one.
pub open spec fn built_targets(ws: Workspace, n: nat) -> Seq<(Seq<char>, TargetView)>
    decreases n,
{
    if n == 0 {
        upsert(seq![], root_target(), root_target_view(ws.name@, ws.version@))
    } else {
        let pkg = ws.packages@[n - 1];
        upsert(built_targets(ws, (n - 1) as nat), pkg.name@, member_target(pkg, ws.path@))
    }
}

/// `s` with every repeat of an earlier item left out.
pub open spec fn distinct_in_order(s: Seq<Seq<char>>) -> Seq<Seq<char>>
    decreases s.len(),
{
    if s.len() == 0 {
        seq![]
    } else {
        let d = distinct_in_order(s.drop_last());
        if d.contains(s.last()) {
            d
        } else {
            d.push(s.last())
        }
    }
}

/// The target names of the member packages, in order.
pub open spec fn package_names(ws: Workspace) -> Seq<Seq<char>> {
    ws.packages@.map_values(|p: Package| p.name@)
}

pub open spec fn default_group_name() -> Seq<char> {
    "default"@
}

/// The group table: the default group, which lists each member target once.
pub open spec fn built_groups(ws: Workspace) -> Seq<(Seq<char>, Seq<Seq<char>>)> {
    seq![(default_group_name(), distinct_in_order(package_names(ws)))]
}

fn contains_string(v: &Vec<String>, s: &String) -> (r: bool)
    ensures
        r == views(v@).contains(s@),
{
    let mut k: usize = 0;
    while k < v.len()
        invariant
            k <= v.len(),
            forall|j: int| 0 <= j < k ==> #[trigger] v@[j]@ != s@,
        decreases v.len() - k,
    {
        if v[k] == *s {
            assert(views(v@)[k as int] == s@);
            return true;
        }
        k += 1;
    }
    assert forall|j: int| 0 <= j < views(v@).len() implies views(v@)[j] != s@ by {
        assert(views(v@)[j] == v@[j]@);
    }
    false
}

impl BakeFile {
    /// The descriptor of a resolved workspace: the root target, one target
    /// per member package (tagged `name:version`, depending on its resolved
    /// dependencies, with its context relative to the workspace root), and a
    /// default group listing every member target once.
    pub fn build(workspace: &Workspace) -> (r: BakeFile)
        ensures
            r.wf(),
            r@.targets == built_targets(*workspace, workspace.packages@.len()),
            r@.groups == built_groups(*workspace),
    {
        let mut bake_file = BakeFile::new();
        bake_file.add_root_target(workspace.name.as_str(), workspace.version.as_str());
        assert(bake_file@.targets == built_targets(*workspace, 0));
        let mut names: Vec<String> = Vec::new();
        let mut i: usize = 0;
        while i < workspace.packages.len()
            invariant
                i <= workspace.packages.len(),
                bake_file.wf(),
                bake_file@.groups.len() == 0,
                bake_file@.targets == built_targets(*workspace, i as nat),
                views(names@) == distinct_in_order(package_names(*workspace).take(i as int)),
            decreases workspace.packages.len() - i,
        {
            let pkg = &workspace.packages[i];
            let mut tag = pkg.name.clone();
            tag.push(':');
            tag.append(pkg.version.as_str());
            assert(tag@ =~= image_tag(pkg.name@, pkg.version@));
            let mut tags: Vec<String> = Vec::new();
            tags.push(tag);
            let target = Target::new(
                pkg.path.as_str(),
                workspace.path.as_str(),
                bake_dockerfile_name(),
                tags,
                copy_strings(&pkg.dependencies),
            );
            assert(views(target.tags@) =~= seq![image_tag(pkg.name@, pkg.version@)]);
            assert(target@ == member_target(*pkg, workspace.path@));
            bake_file.add_target(pkg.name.clone(), target);
            let ghost prefix = package_names(*workspace).take(i + 1);
            assert(prefix.drop_last() =~= package_names(*workspace).take(i as int));
            assert(prefix.last() == pkg.name@);
            if !contains_string(&names, &pkg.name) {
                let ghost before = views(names@);
                names.push(pkg.name.clone());
                assert(views(names@) =~= before.push(pkg.name@));
            }
            i += 1;
        }
        assert(package_names(*workspace).take(workspace.packages.len() as int) =~= package_names(
            *workspace,
        ));
        let default_name = String::from_str("default");
        bake_file.add_group(default_name, names);
        assert(bake_file@.groups =~= built_groups(*workspace));
        bake_file
    }
}

} // verus!

verus! {

proof fn lemma_distinct_in_order(s: Seq<Seq<char>>)
    ensures
        distinct_in_order(s).no_duplicates(),
        distinct_in_order(s).to_set() == s.to_set(),
    decreases s.len(),
{
    if s.len() > 0 {
        let init = s.drop_last();
        lemma_distinct_in_order(init);
        let d = distinct_in_order(init);
        assert(s =~= init.push(s.last()));
        init.lemma_push_to_set_commute(s.last());
        if !d.contains(s.last()) {
            d.lemma_push_to_set_commute(s.last());
            assert forall|a: int, b: int| 0 <= a < b < d.push(s.last()).len() implies d.push(s.last())[a]
                != d.push(s.last())[b] by {
                if b == d.len() {
                    assert(d[a] != s.last());
                }
            }
        } else {
            assert(d.to_set().insert(s.last()) =~= d.to_set());
        }
    } else {
        assert(s.to_set() =~= Set::empty());
        assert(distinct_in_order(s).to_set() =~= Set::empty());
    }
}

/// The default group lists exactly the member targets: each target name of
/// a member package once, and nothing else.
pub proof fn lemma_default_group_lists_members(ws: Workspace)
    ensures
        built_groups(ws).len() == 1,
        built_groups(ws)[0].0 == default_group_name(),
        built_groups(ws)[0].1.no_duplicates(),
        built_groups(ws)[0].1.to_set() == package_names(ws).to_set(),
{
    lemma_distinct_in_order(package_names(ws));
}

/// Each entry of the target table is the root target or a member target.
proof fn lemma_built_entries(ws: Workspace, n: nat)
    requires
        n <= ws.packages@.len(),
    ensures
        forall|k: int|
            0 <= k < built_targets(ws, n).len() ==> #[trigger] built_targets(ws, n)[k] == (
                root_target(),
                root_target_view(ws.name@, ws.version@),
            ) || exists|i: int|
                0 <= i < n && built_targets(ws, n)[k] == (
                    #[trigger] ws.packages@[i].name@,
                    member_target(ws.packages@[i], ws.path@),
                ),
    decreases n,
{
    if n == 0 {
        crate::entries::lemma_upsert_entries(
            seq![],
            root_target(),
            root_target_view(ws.name@, ws.version@),
        );
    } else {
        lemma_built_entries(ws, (n - 1) as nat);
        let prev = built_targets(ws, (n - 1) as nat);
        let pkg = ws.packages@[n - 1];
        crate::entries::lemma_upsert_entries(prev, pkg.name@, member_target(pkg, ws.path@));
        let cur = built_targets(ws, n);
        assert forall|k: int| 0 <= k < cur.len() implies #[trigger] cur[k] == (
            root_target(),
            root_target_view(ws.name@, ws.version@),
        ) || exists|i: int|
            0 <= i < n && cur[k] == (
                #[trigger] ws.packages@[i].name@,
                member_target(ws.packages@[i], ws.path@),
            ) by {
            if cur[k] != (pkg.name@, member_target(pkg, ws.path@)) {
                let j = choose|j: int| 0 <= j < prev.len() && cur[k] == #[trigger] prev[j];
                assert(prev[j] == cur[k]);
            } else {
                assert(cur[k] == (ws.packages@[n - 1].name@, member_target(ws.packages@[n - 1], ws.path@)));
            }
        }
    }
}

/// Every target but the root's depends on the root target.
pub proof fn lemma_members_depend_on_root(members: Seq<PackageView>, ws: Workspace)
    requires
        resolves_members(ws.packages@, members),
    ensures
        forall|k: int|
            0 <= k < built_targets(ws, ws.packages@.len()).len() && #[trigger] built_targets(
                ws,
                ws.packages@.len(),
            )[k].0 != root_target() ==> built_targets(ws, ws.packages@.len())[k].1.depends_on.contains(
                root_target(),
            ),
{
    let t = built_targets(ws, ws.packages@.len());
    lemma_built_entries(ws, ws.packages@.len());
    assert forall|k: int| 0 <= k < t.len() && #[trigger] t[k].0 != root_target() implies t[k].1.depends_on.contains(
        root_target(),
    ) by {
        let i = choose|i: int|
            0 <= i < ws.packages@.len() && t[k] == (
                #[trigger] ws.packages@[i].name@,
                member_target(ws.packages@[i], ws.path@),
            );
        assert(resolves_member(ws.packages@[i], members, i));
        assert(t[k].1.depends_on[0] == root_target());
    }
}

/// The names the target table holds after the first `n` members.
proof fn lemma_built_keys(ws: Workspace, n: nat)
    requires
        n <= ws.packages@.len(),
    ensures
        has_key(built_targets(ws, n), root_target()),
        forall|i: int| 0 <= i < n ==> has_key(built_targets(ws, n), #[trigger] ws.packages@[i].name@),
    decreases n,
{
    if n == 0 {
        crate::entries::lemma_upsert_keys(
            seq![],
            root_target(),
            root_target_view(ws.name@, ws.version@),
        );
    } else {
        lemma_built_keys(ws, (n - 1) as nat);
        let pkg = ws.packages@[n - 1];
        crate::entries::lemma_upsert_keys(
            built_targets(ws, (n - 1) as nat),
            pkg.name@,
            member_target(pkg, ws.path@),
        );
    }
}

/// No dangling references: every name a target depends on is the name of a
/// target of the same descriptor.
pub proof fn lemma_dependencies_are_targets(members: Seq<PackageView>, ws: Workspace)
    requires
        resolves_members(ws.packages@, members),
    ensures
        forall|k: int, d: int|
            0 <= k < built_targets(ws, ws.packages@.len()).len() && 0 <= d < built_targets(
                ws,
                ws.packages@.len(),
            )[k].1.depends_on.len() ==> has_key(
                built_targets(ws, ws.packages@.len()),
                #[trigger] built_targets(ws, ws.packages@.len())[k].1.depends_on[d],
            ),
{
    let n = ws.packages@.len();
    let t = built_targets(ws, n);
    lemma_built_entries(ws, n);
    lemma_built_keys(ws, n);
    assert forall|k: int, d: int| 0 <= k < t.len() && 0 <= d < t[k].1.depends_on.len() implies has_key(
        t,
        #[trigger] t[k].1.depends_on[d],
    ) by {
        if t[k] != (root_target(), root_target_view(ws.name@, ws.version@)) {
            let i = choose|i: int|
                0 <= i < n && t[k] == (
                    #[trigger] ws.packages@[i].name@,
                    member_target(ws.packages@[i], ws.path@),
                );
            assert(resolves_member(ws.packages@[i], members, i));
            let deps = t[k].1.depends_on;
            let name = deps[d];
            if d > 0 {
                assert(deps.skip(1)[d - 1] == name);
                assert(deps.skip(1).to_set().contains(name));
                assert(member_names(members).contains(name));
                let q = choose|q: int|
                    0 <= q < members.len() && sanitized(#[trigger] members[q].name) == name;
                assert(resolves_member(ws.packages@[q], members, q));
                assert(ws.packages@[q].name@ == name);
            }
        }
    }
}

} // verus!

verus! {

/// In the descriptor, a member's dependency on another package of the
/// workspace is kept: where a member declares a dependency whose sanitized
/// name is the target name of another member, the member's target (the only
/// one of its name) depends on that name.
pub proof fn lemma_target_keeps_workspace_dependency(
    members: Seq<PackageView>,
    ws: Workspace,
    i: int,
    k: int,
    q: int,
)
    requires
        resolves_members(ws.packages@, members),
        0 <= i < members.len(),
        0 <= k < members[i].dependencies.len(),
        0 <= q < members.len(),
        sanitized(members[i].dependencies[k]) == sanitized(members[q].name),
        sanitized(members[q].name) != sanitized(members[i].name),
        sanitized(members[i].name) != root_target(),
        forall|j: int|
            0 <= j < members.len() && j != i ==> sanitized(#[trigger] members[j].name)
                != sanitized(members[i].name),
    ensures
        exists|e: int|
            0 <= e < built_targets(ws, ws.packages@.len()).len() && (#[trigger] built_targets(
                ws,
                ws.packages@.len(),
            )[e]).0 == sanitized(members[i].name) && built_targets(ws, ws.packages@.len())[e].1.depends_on.contains(
                sanitized(members[q].name),
            ),
{
    let n = ws.packages@.len();
    let t = built_targets(ws, n);
    let name = sanitized(members[i].name);
    crate::workspace::lemma_workspace_dependency_kept(members, ws.packages@, i, k, q);
    lemma_built_entries(ws, n);
    lemma_built_keys(ws, n);
    assert(resolves_member(ws.packages@[i], members, i));
    assert(has_key(t, ws.packages@[i].name@));
    let e = choose|e: int| 0 <= e < t.len() && #[trigger] t[e].0 == name;
    assert(t[e] != (root_target(), root_target_view(ws.name@, ws.version@)));
    let j = choose|j: int|
        0 <= j < n && t[e] == (#[trigger] ws.packages@[j].name@, member_target(ws.packages@[j], ws.path@));
    assert(resolves_member(ws.packages@[j], members, j));
    assert(j == i);
}

/// In the descriptor, a dependency outside the workspace is dropped: a name
/// that is neither the root target nor the target name of a member package
/// is in no target's `depends_on`.
pub proof fn lemma_targets_drop_outside_dependency(members: Seq<PackageView>, ws: Workspace, name: Seq<char>)
    requires
        resolves_members(ws.packages@, members),
        !member_names(members).contains(name),
        name != root_target(),
    ensures
        forall|e: int|
            0 <= e < built_targets(ws, ws.packages@.len()).len() ==> !(#[trigger] built_targets(
                ws,
                ws.packages@.len(),
            )[e]).1.depends_on.contains(name),
{
    let n = ws.packages@.len();
    let t = built_targets(ws, n);
    lemma_built_entries(ws, n);
    assert forall|e: int| 0 <= e < t.len() implies !(#[trigger] t[e]).1.depends_on.contains(name) by {
        if t[e] != (root_target(), root_target_view(ws.name@, ws.version@)) {
            let j = choose|j: int|
                0 <= j < n && t[e] == (#[trigger] ws.packages@[j].name@, member_target(ws.packages@[j], ws.path@));
            crate::workspace::lemma_outside_dependency_dropped(members, ws.packages@, j, name);
        } else {
            assert(t[e].1.depends_on =~= seq![]);
        }
    }
}

} // verus!
