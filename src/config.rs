//! Tool settings: the output format, and build-instruction templates chosen
//! by package path.

use vstd::prelude::*;
use vstd::string::StringExecFns;
use crate::bake::pair_views;
use crate::error::BakeError;
use crate::pnpm::{compile_glob, glob_accepts, glob_matches, glob_valid};

verus! {

/// The two encodings a descriptor can be written in.
#[derive(Clone, Copy, Debug, PartialEq, Eq)]
pub enum OutputFormat {
    /// The block encoding.
    Hcl,
    /// The structured encoding, as JSON.
    Json,
}

/// Selects the output format named `format`: `hcl` or `json`; any other
/// name is refused.
pub fn parse_output_format(format: &str) -> (r: Result<OutputFormat, BakeError>)
    ensures
        r == Ok::<OutputFormat, BakeError>(OutputFormat::Hcl) <==> format@ == "hcl"@,
        r == Ok::<OutputFormat, BakeError>(OutputFormat::Json) <==> format@ == "json"@,
        r is Err <==> format@ != "hcl"@ && format@ != "json"@,
        r matches Err(e) ==> e matches BakeError::UnsupportedFormat { format: f } && f@ == format@,
{
    let name = String::from_str(format);
    proof {
        reveal_strlit("hcl");
        reveal_strlit("json");
        assert("hcl"@.len() != "json"@.len());
    }
    if name == String::from_str("hcl") {
        Ok(OutputFormat::Hcl)
    } else if name == String::from_str("json") {
        Ok(OutputFormat::Json)
    } else {
        Err(BakeError::UnsupportedFormat { format: name })
    }
}

/// Settings read from a workspace's configuration file.
#[derive(Clone, Debug)]
pub struct BakehouseConfig {
    /// The default output format (`hcl` or `json`).
    pub output_format: String,
    /// Build-instruction templates: (glob over package paths, template path).
    pub templates: Vec<(String, String)>,
}

/// The output format used when none is configured: `hcl`.
pub fn default_output_format() -> (r: String)
    ensures
        r@ == "hcl"@,
{
    String::from_str("hcl")
}

impl Default for BakehouseConfig {
    fn default() -> (r: Self)
        ensures
            r.output_format@ == "hcl"@,
            r.templates@.len() == 0,
    {
        BakehouseConfig { output_format: default_output_format(), templates: Vec::new() }
    }
}

/// The template for `path`: entries are tried in order, the first whose
/// glob matches gives it; an entry whose glob is not valid ends the search
/// with none.
pub open spec fn template_choice(entries: Seq<(Seq<char>, Seq<char>)>, path: Seq<char>) -> Option<Seq<char>>
    decreases entries.len(),
{
    if entries.len() == 0 {
        None
    } else if !glob_valid(entries[0].0) {
        None
    } else if glob_matches(entries[0].0, path) {
        Some(entries[0].1)
    } else {
        template_choice(entries.skip(1), path)
    }
}

impl BakehouseConfig {
    /// Finds the template configured for the package at `package_path`.
    pub fn find_template(&self, package_path: &str) -> (r: Option<&String>)
        ensures
            match r {
                Some(t) => template_choice(pair_views(self.templates@), package_path@) == Some(t@),
                None => template_choice(pair_views(self.templates@), package_path@) is None,
            },
    {
        let ghost entries = pair_views(self.templates@);
        let mut i: usize = 0;
        assert(entries.skip(0) =~= entries);
        while i < self.templates.len()
            invariant
                entries == pair_views(self.templates@),
                i <= self.templates.len(),
                template_choice(entries, package_path@) == template_choice(entries.skip(i as int), package_path@),
            decreases self.templates.len() - i,
        {
            assert(entries.skip(i as int)[0] == (self.templates@[i as int].0@, self.templates@[i as int].1@));
            match compile_glob(self.templates[i].0.as_str()) {
                Ok(g) => {
                    if glob_accepts(&g, package_path) {
                        return Some(&self.templates[i].1);
                    }
                },
                Err(_) => {
                    return None;
                },
            }
            assert(entries.skip(i as int).skip(1) =~= entries.skip(i + 1));
            i += 1;
        }
        None
    }
}

} // verus!
