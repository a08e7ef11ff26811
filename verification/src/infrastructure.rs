use vstd::prelude::*;

use crate::candidate::{Evidence, InfrastructureEvidence};
use crate::discovery::{
    find_path_in_descendants, fresh_scan, path_spec, settle_view, spec_view, EntryCheck, EntryKind,
    PathSpec, Scan, Walk,
};
use crate::exclusion::default_exclusions;
use crate::path::ProjectPath;
use crate::views::views_of;

verus! {

/// The infrastructure markers.
pub fn infrastructure_specs() -> (r: Vec<PathSpec>)
    ensures
        views_of(r@) == seq![
            spec_view("compose.yml"@, EntryCheck::Kind(EntryKind::File), Evidence::Infrastructure(InfrastructureEvidence::DockerCompose)),
            spec_view("compose.yaml"@, EntryCheck::Kind(EntryKind::File), Evidence::Infrastructure(InfrastructureEvidence::DockerCompose)),
            spec_view("docker-compose.yml"@, EntryCheck::Kind(EntryKind::File), Evidence::Infrastructure(InfrastructureEvidence::DockerCompose)),
            spec_view("docker-compose.yaml"@, EntryCheck::Kind(EntryKind::File), Evidence::Infrastructure(InfrastructureEvidence::DockerCompose)),
            spec_view("kustomization.yml"@, EntryCheck::Kind(EntryKind::File), Evidence::Infrastructure(InfrastructureEvidence::Kubernetes)),
            spec_view("kustomization.yaml"@, EntryCheck::Kind(EntryKind::File), Evidence::Infrastructure(InfrastructureEvidence::Kubernetes)),
            spec_view("supabase/config.toml"@, EntryCheck::Kind(EntryKind::File), Evidence::Infrastructure(InfrastructureEvidence::Supabase)),
        ],
{
    let r = vec![
        path_spec("compose.yml", EntryCheck::Kind(EntryKind::File), Evidence::Infrastructure(InfrastructureEvidence::DockerCompose)),
        path_spec("compose.yaml", EntryCheck::Kind(EntryKind::File), Evidence::Infrastructure(InfrastructureEvidence::DockerCompose)),
        path_spec("docker-compose.yml", EntryCheck::Kind(EntryKind::File), Evidence::Infrastructure(InfrastructureEvidence::DockerCompose)),
        path_spec("docker-compose.yaml", EntryCheck::Kind(EntryKind::File), Evidence::Infrastructure(InfrastructureEvidence::DockerCompose)),
        path_spec("kustomization.yml", EntryCheck::Kind(EntryKind::File), Evidence::Infrastructure(InfrastructureEvidence::Kubernetes)),
        path_spec("kustomization.yaml", EntryCheck::Kind(EntryKind::File), Evidence::Infrastructure(InfrastructureEvidence::Kubernetes)),
        path_spec("supabase/config.toml", EntryCheck::Kind(EntryKind::File), Evidence::Infrastructure(InfrastructureEvidence::Supabase)),
    ];
    assert(views_of(r@) =~= seq![
        spec_view("compose.yml"@, EntryCheck::Kind(EntryKind::File), Evidence::Infrastructure(InfrastructureEvidence::DockerCompose)),
        spec_view("compose.yaml"@, EntryCheck::Kind(EntryKind::File), Evidence::Infrastructure(InfrastructureEvidence::DockerCompose)),
        spec_view("docker-compose.yml"@, EntryCheck::Kind(EntryKind::File), Evidence::Infrastructure(InfrastructureEvidence::DockerCompose)),
        spec_view("docker-compose.yaml"@, EntryCheck::Kind(EntryKind::File), Evidence::Infrastructure(InfrastructureEvidence::DockerCompose)),
        spec_view("kustomization.yml"@, EntryCheck::Kind(EntryKind::File), Evidence::Infrastructure(InfrastructureEvidence::Kubernetes)),
        spec_view("kustomization.yaml"@, EntryCheck::Kind(EntryKind::File), Evidence::Infrastructure(InfrastructureEvidence::Kubernetes)),
        spec_view("supabase/config.toml"@, EntryCheck::Kind(EntryKind::File), Evidence::Infrastructure(InfrastructureEvidence::Supabase)),
    ]);
    r
}

/// A depth-first scan of `root` and the directories below it, default exclusions pruned, for infrastructure markers.
pub fn find_infrastructure_candidates(root: &ProjectPath) -> (s: Scan)
    ensures
        s@ == settle_view(
            fresh_scan(
                seq![
                spec_view("compose.yml"@, EntryCheck::Kind(EntryKind::File), Evidence::Infrastructure(InfrastructureEvidence::DockerCompose)),
                spec_view("compose.yaml"@, EntryCheck::Kind(EntryKind::File), Evidence::Infrastructure(InfrastructureEvidence::DockerCompose)),
                spec_view("docker-compose.yml"@, EntryCheck::Kind(EntryKind::File), Evidence::Infrastructure(InfrastructureEvidence::DockerCompose)),
                spec_view("docker-compose.yaml"@, EntryCheck::Kind(EntryKind::File), Evidence::Infrastructure(InfrastructureEvidence::DockerCompose)),
                spec_view("kustomization.yml"@, EntryCheck::Kind(EntryKind::File), Evidence::Infrastructure(InfrastructureEvidence::Kubernetes)),
                spec_view("kustomization.yaml"@, EntryCheck::Kind(EntryKind::File), Evidence::Infrastructure(InfrastructureEvidence::Kubernetes)),
                spec_view("supabase/config.toml"@, EntryCheck::Kind(EntryKind::File), Evidence::Infrastructure(InfrastructureEvidence::Supabase)),
                ],
                seq!["target"@, "node_modules"@, ".next"@],
                Walk::Downward,
                false,
                seq![root@],
            ),
        ),
{
    find_path_in_descendants(root, infrastructure_specs(), default_exclusions())
}

} // verus!
