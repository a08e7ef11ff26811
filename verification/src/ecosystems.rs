use vstd::prelude::*;

use crate::candidate::{Evidence, EcosystemEvidence};
use crate::discovery::{
    find_path_in_descendants, fresh_scan, path_spec, settle_view, spec_view, EntryCheck, EntryKind,
    PathSpec, PathSpecView, Scan, Walk,
};
use crate::exclusion::default_exclusions;
use crate::path::ProjectPath;
use crate::views::views_of;

verus! {

/// The markers of the language ecosystem manifests, in the order they are
/// asked about in each directory.
pub open spec fn ecosystem_specs_view() -> Seq<PathSpecView> {
    seq![
        spec_view("Cargo.toml"@, EntryCheck::Kind(EntryKind::File), Evidence::Ecosystem(EcosystemEvidence::Cargo)),
        spec_view("package.json"@, EntryCheck::Kind(EntryKind::File), Evidence::Ecosystem(EcosystemEvidence::NodeJs)),
        spec_view("pyproject.toml"@, EntryCheck::Kind(EntryKind::File), Evidence::Ecosystem(EcosystemEvidence::Python)),
        spec_view("go.mod"@, EntryCheck::Kind(EntryKind::File), Evidence::Ecosystem(EcosystemEvidence::Go)),
        spec_view("pom.xml"@, EntryCheck::Kind(EntryKind::File), Evidence::Ecosystem(EcosystemEvidence::Maven)),
    ]
}

/// The language ecosystem manifests.
pub fn ecosystem_specs() -> (r: Vec<PathSpec>)
    ensures
        views_of(r@) == ecosystem_specs_view(),
{
    let r = vec![
        path_spec("Cargo.toml", EntryCheck::Kind(EntryKind::File), Evidence::Ecosystem(EcosystemEvidence::Cargo)),
        path_spec("package.json", EntryCheck::Kind(EntryKind::File), Evidence::Ecosystem(EcosystemEvidence::NodeJs)),
        path_spec("pyproject.toml", EntryCheck::Kind(EntryKind::File), Evidence::Ecosystem(EcosystemEvidence::Python)),
        path_spec("go.mod", EntryCheck::Kind(EntryKind::File), Evidence::Ecosystem(EcosystemEvidence::Go)),
        path_spec("pom.xml", EntryCheck::Kind(EntryKind::File), Evidence::Ecosystem(EcosystemEvidence::Maven)),
    ];
    assert(views_of(r@) =~= ecosystem_specs_view());
    r
}

/// A depth-first scan of `root` and the directories below it, default exclusions pruned, for ecosystem manifests.
pub fn find_ecosystem_candidates(root: &ProjectPath) -> (s: Scan)
    ensures
        s@ == settle_view(
            fresh_scan(
                ecosystem_specs_view(),
                seq!["target"@, "node_modules"@, ".next"@],
                Walk::Downward,
                false,
                seq![root@],
            ),
        ),
{
    find_path_in_descendants(root, ecosystem_specs(), default_exclusions())
}

} // verus!
