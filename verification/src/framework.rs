use vstd::prelude::*;

use crate::path::{join_view, lemma_segments_plain, segments_of, ProjectPath};

verus! {

/// What the framework logic reads of a `package.json` manifest: the names
/// under `dependencies` and under `devDependencies`.
pub struct PackageManifest {
    pub dependencies: Vec<String>,
    pub dev_dependencies: Vec<String>,
}

/// Whether `name` is among `names`.
pub open spec fn names_contain(names: Seq<String>, name: Seq<char>) -> bool {
    exists|i: int| 0 <= i < names.len() && #[trigger] names[i]@ == name
}

/// Whether a manifest depends on Next.js, at run time or for development.
pub open spec fn declares_next_js(m: PackageManifest) -> bool {
    names_contain(m.dependencies@, "next"@) || names_contain(m.dev_dependencies@, "next"@)
}

/// Whether `names` holds `name`.
pub fn list_contains(names: &Vec<String>, name: &str) -> (b: bool)
    ensures
        b == names_contain(names@, name@),
{
    let target = String::from_str(name);
    let mut i: usize = 0;
    while i < names.len()
        invariant
            i <= names.len(),
            target@ == name@,
            forall|j: int| 0 <= j < i ==> names@[j]@ != name@,
        decreases names.len() - i,
    {
        if names[i] == target {
            return true;
        }
        i = i + 1;
    }
    false
}

/// Whether a `package.json` whose parse gave `manifest` declares Next.js:
/// a manifest that did not parse (`None`) declares nothing.
pub fn contains_next_js(manifest: Option<&PackageManifest>) -> (b: bool)
    ensures
        b == match manifest {
            Some(m) => declares_next_js(*m),
            None => false,
        },
{
    match manifest {
        Some(m) => list_contains(&m.dependencies, "next") || list_contains(&m.dev_dependencies, "next"),
        None => false,
    }
}

/// Law (membership): `name` is among `names` exactly when some position of
/// `names`, whichever it is, holds `name`.
pub proof fn law_names_contain_any_position(names: Seq<String>, name: Seq<char>)
    ensures
        names_contain(names, name) <==> exists|i: int| 0 <= i < names.len() && names[i]@ == name,
        forall|i: int| 0 <= i < names.len() && names[i]@ == name ==> names_contain(names, name),
{
    assert forall|i: int| 0 <= i < names.len() && names[i]@ == name implies names_contain(names, name) by {
        assert(names[i]@ == name);
    }
}

/// Law (Next.js dependency): a manifest declares Next.js exactly when
/// `next` is at some position of its `dependencies`, whatever its
/// `devDependencies` hold, or at some position of its `devDependencies`,
/// whatever its `dependencies` hold.
pub proof fn law_next_js_in_either_list(m: PackageManifest)
    ensures
        declares_next_js(m) <==> ((exists|i: int|
            0 <= i < m.dependencies@.len() && m.dependencies@[i]@ == "next"@) || (exists|i: int|
            0 <= i < m.dev_dependencies@.len() && m.dev_dependencies@[i]@ == "next"@)),
        forall|i: int|
            0 <= i < m.dependencies@.len() && m.dependencies@[i]@ == "next"@ ==> declares_next_js(m),
        forall|i: int|
            0 <= i < m.dev_dependencies@.len() && m.dev_dependencies@[i]@ == "next"@ ==> declares_next_js(m),
{
    law_names_contain_any_position(m.dependencies@, "next"@);
    law_names_contain_any_position(m.dev_dependencies@, "next"@);
}

/// A framework recognised in a project directory.
#[derive(Debug, Clone, Copy, PartialEq, Eq, Structural)]
pub enum FrameworkKind {
    NextJs,
}

/// A framework and the manifest that shows it.
#[derive(Debug, PartialEq, Eq)]
pub struct FrameworkEvidence {
    pub framework: FrameworkKind,
    pub source_path: ProjectPath,
}

/// What reading a project's `package.json` gave.
pub enum ManifestRead {
    /// There is no `package.json`.
    Missing,
    /// The file could not be read.
    Unreadable,
    /// The file was read but is not a valid manifest.
    Malformed,
    /// The file was read and parsed.
    Parsed(PackageManifest),
}

/// Why frameworks could not be detected, and at which manifest.
#[derive(Debug, PartialEq, Eq)]
pub enum FrameworkError {
    ReadManifest { path: ProjectPath },
    ParseManifest { path: ProjectPath },
}

/// The manifest that names a project's frameworks: `package.json` in the
/// project directory.
pub fn package_json_path(project_dir: &ProjectPath) -> (p: ProjectPath)
    ensures
        p@ == join_view(project_dir@, seq!["package.json"@]),
{
    let p = project_dir.join("package.json");
    proof {
        reveal_strlit("package.json");
        assert(segments_of("package.json"@) =~= seq!["package.json"@]) by {
            lemma_segments_plain("package.json"@);
        }
    }
    p
}

/// The frameworks of the project in `project_dir`, given what reading its
/// `package.json` gave: none when there is no manifest, Next.js when the
/// manifest declares it, and an error naming the manifest when it could
/// not be read or parsed.
pub fn detect_frameworks(project_dir: &ProjectPath, read: ManifestRead) -> (r: Result<Vec<FrameworkEvidence>, FrameworkError>)
    ensures
        match read {
            ManifestRead::Missing => r matches Ok(v) && v@.len() == 0,
            ManifestRead::Unreadable => r matches Err(FrameworkError::ReadManifest { path }) && path@
                == join_view(project_dir@, seq!["package.json"@]),
            ManifestRead::Malformed => r matches Err(FrameworkError::ParseManifest { path }) && path@
                == join_view(project_dir@, seq!["package.json"@]),
            ManifestRead::Parsed(m) => r matches Ok(v) && (if declares_next_js(m) {
                v@.len() == 1 && v@[0].framework == FrameworkKind::NextJs && v@[0].source_path@ == join_view(
                    project_dir@,
                    seq!["package.json"@],
                )
            } else {
                v@.len() == 0
            }),
        },
{
    let path = package_json_path(project_dir);
    match read {
        ManifestRead::Missing => Ok(Vec::new()),
        ManifestRead::Unreadable => Err(FrameworkError::ReadManifest { path }),
        ManifestRead::Malformed => Err(FrameworkError::ParseManifest { path }),
        ManifestRead::Parsed(m) => {
            if contains_next_js(Some(&m)) {
                Ok(vec![FrameworkEvidence { framework: FrameworkKind::NextJs, source_path: path }])
            } else {
                Ok(Vec::new())
            }
        },
    }
}

} // verus!
