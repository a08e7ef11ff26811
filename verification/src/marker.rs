use vstd::prelude::*;

use crate::candidate::{
    BuildSystemEvidence, EcosystemEvidence, Evidence, InfrastructureEvidence,
};
use crate::discovery::{
    ancestor_chain, fresh_scan, path_spec, settle_view, spec_view, step_of, EntryCheck, EntryKind, PathSpec,
    PathSpecView, Scan, StepView, Walk,
};
use crate::discovery_laws::{law_scan_without_markers_finds_nothing, replay, Answer};
use crate::path::{PathView, ProjectPath};
use crate::views::views_of;

verus! {

/// The markers of [`root_markers`], as views.
pub open spec fn root_markers_view() -> Seq<PathSpecView> {
    Seq::empty()
}

/// The markers of a project root; none are configured.
pub fn root_markers() -> (r: Vec<PathSpec>)
    ensures
        views_of(r@) == root_markers_view(),
{
    let r: Vec<PathSpec> = Vec::new();
    assert(views_of(r@) =~= root_markers_view());
    r
}
/// The markers of [`component_markers`], as views.
pub open spec fn component_markers_view() -> Seq<PathSpecView> {
    seq![
        spec_view("Cargo.toml"@, EntryCheck::Kind(EntryKind::File), Evidence::Ecosystem(EcosystemEvidence::Cargo)),
        spec_view("package.json"@, EntryCheck::Kind(EntryKind::File), Evidence::Ecosystem(EcosystemEvidence::NodeJs)),
        spec_view("pyproject.toml"@, EntryCheck::Kind(EntryKind::File), Evidence::Ecosystem(EcosystemEvidence::Python)),
        spec_view("go.mod"@, EntryCheck::Kind(EntryKind::File), Evidence::Ecosystem(EcosystemEvidence::Go)),
        spec_view("pom.xml"@, EntryCheck::Kind(EntryKind::File), Evidence::Ecosystem(EcosystemEvidence::Maven)),
    ]
}

/// The markers of a project component: language manifests.
pub fn component_markers() -> (r: Vec<PathSpec>)
    ensures
        views_of(r@) == component_markers_view(),
{
    let r = vec![
        path_spec("Cargo.toml", EntryCheck::Kind(EntryKind::File), Evidence::Ecosystem(EcosystemEvidence::Cargo)),
        path_spec("package.json", EntryCheck::Kind(EntryKind::File), Evidence::Ecosystem(EcosystemEvidence::NodeJs)),
        path_spec("pyproject.toml", EntryCheck::Kind(EntryKind::File), Evidence::Ecosystem(EcosystemEvidence::Python)),
        path_spec("go.mod", EntryCheck::Kind(EntryKind::File), Evidence::Ecosystem(EcosystemEvidence::Go)),
        path_spec("pom.xml", EntryCheck::Kind(EntryKind::File), Evidence::Ecosystem(EcosystemEvidence::Maven)),
    ];
    assert(views_of(r@) =~= component_markers_view());
    r
}
/// The markers of [`build_markers`], as views.
pub open spec fn build_markers_view() -> Seq<PathSpecView> {
    seq![
        spec_view("CMakeLists.txt"@, EntryCheck::Kind(EntryKind::File), Evidence::BuildSystem(BuildSystemEvidence::CMake)),
    ]
}

/// The markers of a build: a `CMakeLists.txt` file.
pub fn build_markers() -> (r: Vec<PathSpec>)
    ensures
        views_of(r@) == build_markers_view(),
{
    let r = vec![
        path_spec("CMakeLists.txt", EntryCheck::Kind(EntryKind::File), Evidence::BuildSystem(BuildSystemEvidence::CMake)),
    ];
    assert(views_of(r@) =~= build_markers_view());
    r
}
/// The markers of [`operational_markers`], as views.
pub open spec fn operational_markers_view() -> Seq<PathSpecView> {
    seq![
        spec_view("compose.yml"@, EntryCheck::Kind(EntryKind::File), Evidence::Infrastructure(InfrastructureEvidence::DockerCompose)),
        spec_view("compose.yaml"@, EntryCheck::Kind(EntryKind::File), Evidence::Infrastructure(InfrastructureEvidence::DockerCompose)),
        spec_view("docker-compose.yml"@, EntryCheck::Kind(EntryKind::File), Evidence::Infrastructure(InfrastructureEvidence::DockerCompose)),
        spec_view("docker-compose.yaml"@, EntryCheck::Kind(EntryKind::File), Evidence::Infrastructure(InfrastructureEvidence::DockerCompose)),
        spec_view("kustomization.yml"@, EntryCheck::Kind(EntryKind::File), Evidence::Infrastructure(InfrastructureEvidence::Kubernetes)),
        spec_view("kustomization.yaml"@, EntryCheck::Kind(EntryKind::File), Evidence::Infrastructure(InfrastructureEvidence::Kubernetes)),
        spec_view("supabase/config.toml"@, EntryCheck::Kind(EntryKind::File), Evidence::Infrastructure(InfrastructureEvidence::Supabase)),
    ]
}

/// The markers of operational configuration.
pub fn operational_markers() -> (r: Vec<PathSpec>)
    ensures
        views_of(r@) == operational_markers_view(),
{
    let r = vec![
        path_spec("compose.yml", EntryCheck::Kind(EntryKind::File), Evidence::Infrastructure(InfrastructureEvidence::DockerCompose)),
        path_spec("compose.yaml", EntryCheck::Kind(EntryKind::File), Evidence::Infrastructure(InfrastructureEvidence::DockerCompose)),
        path_spec("docker-compose.yml", EntryCheck::Kind(EntryKind::File), Evidence::Infrastructure(InfrastructureEvidence::DockerCompose)),
        path_spec("docker-compose.yaml", EntryCheck::Kind(EntryKind::File), Evidence::Infrastructure(InfrastructureEvidence::DockerCompose)),
        path_spec("kustomization.yml", EntryCheck::Kind(EntryKind::File), Evidence::Infrastructure(InfrastructureEvidence::Kubernetes)),
        path_spec("kustomization.yaml", EntryCheck::Kind(EntryKind::File), Evidence::Infrastructure(InfrastructureEvidence::Kubernetes)),
        path_spec("supabase/config.toml", EntryCheck::Kind(EntryKind::File), Evidence::Infrastructure(InfrastructureEvidence::Supabase)),
    ];
    assert(views_of(r@) =~= operational_markers_view());
    r
}

/// A scan of `start` and its ancestors, nearest first, for root markers.
pub fn find_root_candidates(start: &ProjectPath) -> (s: Scan)
    ensures
        s@ == settle_view(fresh_scan(root_markers_view(), Seq::empty(), Walk::Upward, false, ancestor_chain(start@))),
{
    Scan::upward(start, root_markers(), false)
}

/// Law (no root markers): no project root marker is configured, so the
/// root scan of any `start` finds nothing and is finished before it asks
/// the filesystem anything, whatever it is then told.
pub proof fn law_root_scan_finds_nothing(start: PathView, answers: Seq<Answer>)
    ensures
        ({
            let v0 = settle_view(
                fresh_scan(root_markers_view(), Seq::empty(), Walk::Upward, false, ancestor_chain(start)),
            );
            &&& step_of(v0) == StepView::Finished
            &&& replay(v0, answers).candidates.len() == 0
            &&& step_of(replay(v0, answers)) == StepView::Finished
        }),
{
    law_scan_without_markers_finds_nothing(Seq::empty(), Walk::Upward, false, ancestor_chain(start), answers);
}

/// A scan of `start` and its ancestors, nearest first, for component markers.
pub fn find_component_candidates(start: &ProjectPath) -> (s: Scan)
    ensures
        s@ == settle_view(fresh_scan(component_markers_view(), Seq::empty(), Walk::Upward, false, ancestor_chain(start@))),
{
    Scan::upward(start, component_markers(), false)
}

/// A scan of `start` and its ancestors, nearest first, for build markers.
pub fn find_build_candidates(start: &ProjectPath) -> (s: Scan)
    ensures
        s@ == settle_view(fresh_scan(build_markers_view(), Seq::empty(), Walk::Upward, false, ancestor_chain(start@))),
{
    Scan::upward(start, build_markers(), false)
}

/// A scan of `start` and its ancestors, nearest first, for operational markers.
pub fn find_operational_candidates(start: &ProjectPath) -> (s: Scan)
    ensures
        s@ == settle_view(fresh_scan(operational_markers_view(), Seq::empty(), Walk::Upward, false, ancestor_chain(start@))),
{
    Scan::upward(start, operational_markers(), false)
}

/// Law: every configured marker names a non-empty relative path.
pub proof fn law_marker_paths_are_not_empty()
    ensures
        forall|i: int| 0 <= i < root_markers_view().len() ==> #[trigger] root_markers_view()[i].rel.len() > 0,
        forall|i: int|
            0 <= i < component_markers_view().len() ==> #[trigger] component_markers_view()[i].rel.len() > 0,
        forall|i: int| 0 <= i < build_markers_view().len() ==> #[trigger] build_markers_view()[i].rel.len() > 0,
        forall|i: int|
            0 <= i < operational_markers_view().len() ==> #[trigger] operational_markers_view()[i].rel.len() > 0,
{
    reveal_strlit("Cargo.toml");
    reveal_strlit("package.json");
    reveal_strlit("pyproject.toml");
    reveal_strlit("go.mod");
    reveal_strlit("pom.xml");
    reveal_strlit("CMakeLists.txt");
    reveal_strlit("compose.yml");
    reveal_strlit("compose.yaml");
    reveal_strlit("docker-compose.yml");
    reveal_strlit("docker-compose.yaml");
    reveal_strlit("kustomization.yml");
    reveal_strlit("kustomization.yaml");
    reveal_strlit("supabase/config.toml");
}

} // verus!
