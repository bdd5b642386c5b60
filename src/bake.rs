//! The Docker Bake descriptor: one target per package, a default group, and
//! the block encoding of the whole.

use vstd::prelude::*;
use vstd::string::StringExecFns;
use crate::entries::{entry_views, keys_unique, upsert, upsert_entry};
use crate::paths::{context_of, package_context};
use crate::text::views;
use crate::workspace::{root_target, root_target_name};

verus! {

/// One build target.
#[derive(Clone, Debug)]
pub struct Target {
    /// The build context, relative to the workspace root.
    pub context: String,
    /// The build-instruction file, inside the context.
    pub dockerfile: String,
    pub tags: Vec<String>,
    /// Names of the targets to build first.
    pub depends_on: Vec<String>,
    /// Build-instruction text still to be written next to the package, if any.
    pub dockerfile_contents: Option<String>,
    /// Named build contexts that refer to other targets.
    pub contexts: Option<Vec<(String, String)>>,
}

/// What a target states; the build-instruction text still to be written is
/// not part of the descriptor.
pub struct TargetView {
    pub context: Seq<char>,
    pub dockerfile: Seq<char>,
    pub tags: Seq<Seq<char>>,
    pub depends_on: Seq<Seq<char>>,
    pub contexts: Option<Seq<(Seq<char>, Seq<char>)>>,
}

pub open spec fn pair_views(v: Seq<(String, String)>) -> Seq<(Seq<char>, Seq<char>)> {
    v.map_values(|p: (String, String)| (p.0@, p.1@))
}

pub open spec fn contexts_view(c: Option<Vec<(String, String)>>) -> Option<Seq<(Seq<char>, Seq<char>)>> {
    match c {
        Some(v) => Some(pair_views(v@)),
        None => None,
    }
}

impl View for Target {
    type V = TargetView;

    open spec fn view(&self) -> TargetView {
        TargetView {
            context: self.context@,
            dockerfile: self.dockerfile@,
            tags: views(self.tags@),
            depends_on: views(self.depends_on@),
            contexts: contexts_view(self.contexts),
        }
    }
}

/// A named list of targets built together.
#[derive(Clone, Debug)]
pub struct Group {
    pub targets: Vec<String>,
}

impl View for Group {
    type V = Seq<Seq<char>>;

    open spec fn view(&self) -> Seq<Seq<char>> {
        views(self.targets@)
    }
}

/// The build-instruction file name every target uses.
pub open spec fn bake_dockerfile() -> Seq<char> {
    seq!['D', 'o', 'c', 'k', 'e', 'r', 'f', 'i', 'l', 'e', '.', 'b', 'a', 'k', 'e']
}

/// Makes the build-instruction file name.
pub fn bake_dockerfile_name() -> (r: String)
    ensures
        r@ == bake_dockerfile(),
{
    let r = String::from_str("Dockerfile.bake");
    proof {
        reveal_strlit("Dockerfile.bake");
    }
    r
}

/// The reference to a target's output as a named build context.
pub open spec fn target_ref(name: Seq<char>) -> Seq<char> {
    seq!['t', 'a', 'r', 'g', 'e', 't', ':'] + name
}

/// The named contexts of a target whose context is not the workspace root:
/// the root target, by reference.
pub open spec fn root_contexts() -> Seq<(Seq<char>, Seq<char>)> {
    seq![(root_target(), target_ref(root_target()))]
}

/// The named contexts of a target with build context `context`.
pub open spec fn contexts_for(context: Seq<char>) -> Option<Seq<(Seq<char>, Seq<char>)>> {
    if context != seq!['.'] {
        Some(root_contexts())
    } else {
        None
    }
}

fn root_context_entries() -> (r: Vec<(String, String)>)
    ensures
        pair_views(r@) == root_contexts(),
{
    let mut reference = String::from_str("target:");
    proof {
        reveal_strlit("target:");
    }
    assert("target:"@ =~= seq!['t', 'a', 'r', 'g', 'e', 't', ':']);
    reference.append(root_target_name().as_str());
    let mut v: Vec<(String, String)> = Vec::new();
    v.push((root_target_name(), reference));
    assert(pair_views(v@) =~= root_contexts());
    v
}

fn is_dot(s: &String) -> (r: bool)
    ensures
        r == (s@ == seq!['.']),
{
    if s.as_str().unicode_len() == 1 && s.as_str().get_char(0) == '.' {
        assert(s@ =~= seq!['.']);
        true
    } else {
        false
    }
}

impl Target {
    /// A target for the package at `package_path` in the workspace at
    /// `workspace_root`. Its context is the package path relative to the
    /// root; a target outside the root's own directory also gets the root
    /// target as a named context.
    pub fn new(
        package_path: &str,
        workspace_root: &str,
        dockerfile: String,
        tags: Vec<String>,
        depends_on: Vec<String>,
    ) -> (r: Self)
        ensures
            r.context@ == context_of(package_path@, workspace_root@),
            r.dockerfile == dockerfile,
            r.tags == tags,
            r.depends_on == depends_on,
            r.dockerfile_contents is None,
            contexts_view(r.contexts) == contexts_for(r.context@),
    {
        let context = package_context(package_path, workspace_root);
        let contexts = if !is_dot(&context) {
            Some(root_context_entries())
        } else {
            None
        };
        Target { context, dockerfile, tags, depends_on, dockerfile_contents: None, contexts }
    }

    /// A bare target with the given context and the conventional
    /// build-instruction file.
    pub fn with_context(context: String) -> (r: Self)
        ensures
            r.context == context,
            r.dockerfile@ == bake_dockerfile(),
            r.tags@.len() == 0,
            r.depends_on@.len() == 0,
            r.dockerfile_contents is None,
            r.contexts is None,
    {
        Target {
            context,
            dockerfile: bake_dockerfile_name(),
            tags: Vec::new(),
            depends_on: Vec::new(),
            dockerfile_contents: None,
            contexts: None,
        }
    }
}

/// The tag of an image without a version of its own.
pub open spec fn default_root_tag() -> Seq<char> {
    "workspace-root:latest"@
}

impl Default for Target {
    /// The workspace root's target before the root manifest is known.
    fn default() -> (r: Self)
        ensures
            r.context@ == seq!['.'],
            r.dockerfile@ == bake_dockerfile(),
            views(r.tags@) == seq![default_root_tag()],
            r.depends_on@.len() == 0,
            r.dockerfile_contents is None,
            r.contexts is None,
    {
        let mut context = String::new();
        context.push('.');
        let mut tags: Vec<String> = Vec::new();
        tags.push(String::from_str("workspace-root:latest"));
        assert(views(tags@) =~= seq![default_root_tag()]);
        Target {
            context,
            dockerfile: bake_dockerfile_name(),
            tags,
            depends_on: Vec::new(),
            dockerfile_contents: None,
            contexts: None,
        }
    }
}

/// The descriptor: groups and targets by name, each name once, in the order
/// they were first added.
#[derive(Clone, Debug)]
pub struct BakeFile {
    pub group: Vec<(String, Group)>,
    pub target: Vec<(String, Target)>,
}

pub struct BakeView {
    pub groups: Seq<(Seq<char>, Seq<Seq<char>>)>,
    pub targets: Seq<(Seq<char>, TargetView)>,
}

impl View for BakeFile {
    type V = BakeView;

    open spec fn view(&self) -> BakeView {
        BakeView { groups: entry_views(self.group@), targets: entry_views(self.target@) }
    }
}

impl BakeFile {
    /// Each group name and each target name occurs once.
    pub open spec fn wf(&self) -> bool {
        keys_unique(self@.groups) && keys_unique(self@.targets)
    }

    /// An empty descriptor.
    pub fn new() -> (r: Self)
        ensures
            r.wf(),
            r@.groups.len() == 0,
            r@.targets.len() == 0,
    {
        BakeFile { group: Vec::new(), target: Vec::new() }
    }

    /// Adds a target under `name`, replacing a target of that name. The
    /// target is stored without build-instruction text; the text it carried,
    /// still to be written to `context/dockerfile`, is handed back.
    pub fn add_target(&mut self, name: String, target: Target) -> (pending: Option<String>)
        requires
            old(self).wf(),
        ensures
            final(self).wf(),
            final(self)@.targets == upsert(old(self)@.targets, name@, target@),
            final(self)@.groups == old(self)@.groups,
            pending == target.dockerfile_contents,
            forall|i: int|
                0 <= i < final(self).target@.len() && (#[trigger] final(self).target@[i]).0@ == name@
                    ==> final(self).target@[i].1.dockerfile_contents is None,
    {
        let Target { context, dockerfile, tags, depends_on, dockerfile_contents, contexts } = target;
        let stored = Target { context, dockerfile, tags, depends_on, dockerfile_contents: None, contexts };
        upsert_entry(&mut self.target, name, stored);
        dockerfile_contents
    }

    /// Adds a group under `name`, replacing a group of that name.
    pub fn add_group(&mut self, name: String, targets: Vec<String>)
        requires
            old(self).wf(),
        ensures
            final(self).wf(),
            final(self)@.groups == upsert(old(self)@.groups, name@, views(targets@)),
            final(self)@.targets == old(self)@.targets,
    {
        upsert_entry(&mut self.group, name, Group { targets });
    }

    /// Adds the workspace root's target, named `root`: context `.`, tagged
    /// with the root's sanitized name and version, depending on nothing.
    pub fn add_root_target(&mut self, root_name: &str, root_version: &str)
        requires
            old(self).wf(),
        ensures
            final(self).wf(),
            final(self)@.targets == upsert(old(self)@.targets, root_target(), root_target_view(root_name@, root_version@)),
            final(self)@.groups == old(self)@.groups,
    {
        let mut tag = crate::names::sanitize_docker_name(root_name);
        tag.push(':');
        tag.append(root_version);
        assert(tag@ =~= image_tag(crate::names::sanitized(root_name@), root_version@));
        let mut tags: Vec<String> = Vec::new();
        tags.push(tag);
        let mut context = String::new();
        context.push('.');
        let target = Target {
            context,
            dockerfile: bake_dockerfile_name(),
            tags,
            depends_on: Vec::new(),
            dockerfile_contents: None,
            contexts: None,
        };
        assert(views(target.tags@) =~= seq![image_tag(crate::names::sanitized(root_name@), root_version@)]);
        assert(views(target.depends_on@) =~= seq![]);
        assert(target@ == root_target_view(root_name@, root_version@));
        self.add_target(root_target_name(), target);
    }
}

/// The image tag of a package: its target name, `:`, its version.
pub open spec fn image_tag(name: Seq<char>, version: Seq<char>) -> Seq<char> {
    name + seq![':'] + version
}

/// The root package's target.
pub open spec fn root_target_view(root_name: Seq<char>, root_version: Seq<char>) -> TargetView {
    TargetView {
        context: seq!['.'],
        dockerfile: bake_dockerfile(),
        tags: seq![image_tag(crate::names::sanitized(root_name), root_version)],
        depends_on: seq![],
        contexts: None,
    }
}

} // verus!
