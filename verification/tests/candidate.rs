use uridim::candidate::{
    BuildSystemEvidence, Candidate, EcosystemEvidence, Evidence, FrameworkEvidence,
    InfrastructureEvidence, Labelled, VcsEvidence,
};
use uridim::path::ProjectPath;

#[test]
fn creates_vcs_candidate() {
    let candidate = Candidate {
        name: "uridim".to_string(),
        scope_path: ProjectPath::parse("/projects/uridim"),
        evidence: Evidence::Vcs(VcsEvidence::Git),
        source_path: ProjectPath::parse("/projects/uridim/.git"),
    };

    assert_eq!(candidate.name, "uridim");
    assert_eq!(candidate.scope_path, ProjectPath::parse("/projects/uridim"));
    assert_eq!(candidate.evidence, Evidence::Vcs(VcsEvidence::Git));
    assert_eq!(
        candidate.source_path,
        ProjectPath::parse("/projects/uridim/.git")
    );
}

#[test]
fn creates_ecosystem_candidate() {
    let candidate = Candidate {
        name: "backend".to_string(),
        scope_path: ProjectPath::parse("/projects/app/backend"),
        evidence: Evidence::Ecosystem(EcosystemEvidence::Cargo),
        source_path: ProjectPath::parse("/projects/app/backend/Cargo.toml"),
    };

    assert_eq!(
        candidate.evidence,
        Evidence::Ecosystem(EcosystemEvidence::Cargo)
    );
}

#[test]
fn creates_framework_candidate() {
    let candidate = Candidate {
        name: "frontend".to_string(),
        scope_path: ProjectPath::parse("/projects/app/frontend"),
        evidence: Evidence::Framework(FrameworkEvidence::NextJs),
        source_path: ProjectPath::parse("/projects/app/frontend/package.json"),
    };

    assert_eq!(
        candidate.evidence,
        Evidence::Framework(FrameworkEvidence::NextJs)
    );
}

#[test]
fn creates_build_system_candidate() {
    let candidate = Candidate {
        name: "native".to_string(),
        scope_path: ProjectPath::parse("/projects/app/native"),
        evidence: Evidence::BuildSystem(BuildSystemEvidence::CMake),
        source_path: ProjectPath::parse("/projects/app/native/CMakeLists.txt"),
    };

    assert_eq!(
        candidate.evidence,
        Evidence::BuildSystem(BuildSystemEvidence::CMake)
    );
}

#[test]
fn creates_infrastructure_candidate() {
    let candidate = Candidate {
        name: "infra".to_string(),
        scope_path: ProjectPath::parse("/projects/app/infra"),
        evidence: Evidence::Infrastructure(InfrastructureEvidence::DockerCompose),
        source_path: ProjectPath::parse("/projects/app/infra/compose.yaml"),
    };

    assert_eq!(
        candidate.evidence,
        Evidence::Infrastructure(InfrastructureEvidence::DockerCompose)
    );
}

#[test]
fn labels_each_kind_of_evidence() {
    assert_eq!(VcsEvidence::Git.label(), "Git");
    assert_eq!(EcosystemEvidence::Cargo.label(), "Cargo");
    assert_eq!(EcosystemEvidence::NodeJs.label(), "Node.js");
    assert_eq!(EcosystemEvidence::Python.label(), "Python");
    assert_eq!(EcosystemEvidence::Go.label(), "Go");
    assert_eq!(EcosystemEvidence::Maven.label(), "Maven");
    assert_eq!(FrameworkEvidence::NextJs.label(), "Next.js");
    assert_eq!(BuildSystemEvidence::CMake.label(), "CMake");
    assert_eq!(InfrastructureEvidence::DockerCompose.label(), "Docker Compose");
    assert_eq!(InfrastructureEvidence::Kubernetes.label(), "Kubernetes");
    assert_eq!(InfrastructureEvidence::Supabase.label(), "Supabase");
}
