use vstd::prelude::*;

use crate::candidate::{Evidence, BuildSystemEvidence};
use crate::discovery::{
    find_path_in_descendants, fresh_scan, path_spec, settle_view, spec_view, EntryCheck, EntryKind,
    PathSpec, Scan, Walk,
};
use crate::exclusion::default_exclusions;
use crate::path::ProjectPath;
use crate::views::views_of;

verus! {

/// The build system markers: a `CMakeLists.txt` file.
pub fn build_system_specs() -> (r: Vec<PathSpec>)
    ensures
        views_of(r@) == seq![
            spec_view("CMakeLists.txt"@, EntryCheck::Kind(EntryKind::File), Evidence::BuildSystem(BuildSystemEvidence::CMake)),
        ],
{
    let r = vec![
        path_spec("CMakeLists.txt", EntryCheck::Kind(EntryKind::File), Evidence::BuildSystem(BuildSystemEvidence::CMake)),
    ];
    assert(views_of(r@) =~= seq![
        spec_view("CMakeLists.txt"@, EntryCheck::Kind(EntryKind::File), Evidence::BuildSystem(BuildSystemEvidence::CMake)),
    ]);
    r
}

/// A depth-first scan of `root` and the directories below it, default exclusions pruned, for build system markers.
pub fn find_build_system_candidates(root: &ProjectPath) -> (s: Scan)
    ensures
        s@ == settle_view(
            fresh_scan(
                seq![
                spec_view("CMakeLists.txt"@, EntryCheck::Kind(EntryKind::File), Evidence::BuildSystem(BuildSystemEvidence::CMake)),
                ],
                seq!["target"@, "node_modules"@, ".next"@],
                Walk::Downward,
                false,
                seq![root@],
            ),
        ),
{
    find_path_in_descendants(root, build_system_specs(), default_exclusions())
}

} // verus!
