use vstd::prelude::*;

use crate::candidate::{Evidence, VcsEvidence};
use crate::discovery::{
    ancestor_chain, find_path_in_ancestors, fresh_scan, path_spec, settle_view, spec_view, EntryCheck,
    EntryKind, PathSpec, Scan, Walk,
};
use crate::path::ProjectPath;
use crate::views::views_of;

verus! {

/// The version control markers: a `.git` directory.
pub fn vcs_specs() -> (r: Vec<PathSpec>)
    ensures
        views_of(r@) == seq![
            spec_view(".git"@, EntryCheck::Kind(EntryKind::Directory), Evidence::Vcs(VcsEvidence::Git)),
        ],
{
    let r = vec![
        path_spec(".git", EntryCheck::Kind(EntryKind::Directory), Evidence::Vcs(VcsEvidence::Git)),
    ];
    assert(views_of(r@) =~= seq![
        spec_view(".git"@, EntryCheck::Kind(EntryKind::Directory), Evidence::Vcs(VcsEvidence::Git)),
    ]);
    r
}

/// A scan of `start` and each of its ancestors, nearest first, for version
/// control markers.
pub fn find_vcs_candidates(start: &ProjectPath) -> (s: Scan)
    ensures
        s@ == settle_view(
            fresh_scan(
                seq![spec_view(".git"@, EntryCheck::Kind(EntryKind::Directory), Evidence::Vcs(VcsEvidence::Git))],
                Seq::empty(),
                Walk::Upward,
                false,
                ancestor_chain(start@),
            ),
        ),
{
    find_path_in_ancestors(start, vcs_specs())
}

} // verus!
