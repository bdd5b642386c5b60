//! The records read from a workspace's files.

use vstd::prelude::*;

verus! {

/// The workspace membership file: glob patterns, relative to the workspace
/// root, that select the member packages.
#[derive(Clone, Debug)]
pub struct PnpmWorkspace {
    pub packages: Vec<String>,
}

/// One package manifest. Dependency lists hold (name, version range) pairs;
/// only the names are used.
#[derive(Clone, Debug)]
pub struct PackageJson {
    pub name: String,
    pub version: String,
    pub dependencies: Option<Vec<(String, String)>>,
    pub dev_dependencies: Option<Vec<(String, String)>>,
    pub engines: Option<Engines>,
}

/// The runtime versions a manifest asks for.
#[derive(Clone, Debug)]
pub struct Engines {
    pub node: Option<String>,
}

/// The names in an optional dependency list.
pub open spec fn dependency_names(deps: Option<Vec<(String, String)>>) -> Seq<Seq<char>> {
    match deps {
        Some(v) => v@.map_values(|e: (String, String)| e.0@),
        None => seq![],
    }
}

/// Every dependency name a manifest declares, runtime ones first.
pub open spec fn declared_names(m: PackageJson) -> Seq<Seq<char>> {
    dependency_names(m.dependencies) + dependency_names(m.dev_dependencies)
}

} // verus!
