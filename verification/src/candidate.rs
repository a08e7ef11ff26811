use vstd::prelude::*;

use crate::path::{PathView, ProjectPath};

verus! {

/// Evidence of a version control system.
#[derive(Debug, Clone, Copy, PartialEq, Eq, Structural)]
pub enum VcsEvidence {
    Git,
}

/// Evidence of a language ecosystem.
#[derive(Debug, Clone, Copy, PartialEq, Eq, Structural)]
pub enum EcosystemEvidence {
    Cargo,
    NodeJs,
    Python,
    Go,
    Maven,
}

/// Evidence of an application framework.
#[derive(Debug, Clone, Copy, PartialEq, Eq, Structural)]
pub enum FrameworkEvidence {
    NextJs,
}

/// Evidence of a build system.
#[derive(Debug, Clone, Copy, PartialEq, Eq, Structural)]
pub enum BuildSystemEvidence {
    CMake,
}

/// Evidence of deployment infrastructure.
#[derive(Debug, Clone, Copy, PartialEq, Eq, Structural)]
pub enum InfrastructureEvidence {
    DockerCompose,
    Kubernetes,
    Supabase,
}

/// What a candidate was recognised as, by category.
#[derive(Debug, Clone, Copy, PartialEq, Eq, Structural)]
pub enum Evidence {
    Vcs(VcsEvidence),
    Ecosystem(EcosystemEvidence),
    Framework(FrameworkEvidence),
    BuildSystem(BuildSystemEvidence),
    Infrastructure(InfrastructureEvidence),
}

/// A directory that holds evidence of some project tool.
#[derive(Debug, PartialEq, Eq)]
pub struct Candidate {
    pub name: String,
    pub scope_path: ProjectPath,
    pub evidence: Evidence,
    pub source_path: ProjectPath,
}

/// The mathematical content of a [`Candidate`].
pub struct CandidateView {
    pub name: Seq<char>,
    pub scope: PathView,
    pub evidence: Evidence,
    pub source: PathView,
}

impl View for Candidate {
    type V = CandidateView;

    open spec fn view(&self) -> CandidateView {
        CandidateView {
            name: self.name@,
            scope: self.scope_path@,
            evidence: self.evidence,
            source: self.source_path@,
        }
    }
}

/// A kind of evidence that has a human-readable label.
pub trait Labelled {
    /// The label, as text.
    spec fn label_text(&self) -> Seq<char>;

    /// The label shown for this evidence.
    fn label(&self) -> (s: &'static str)
        ensures
            s@ == self.label_text(),
    ;
}

impl Labelled for VcsEvidence {
    open spec fn label_text(&self) -> Seq<char> {
        match self {
            VcsEvidence::Git => "Git"@,
        }
    }

    fn label(&self) -> (s: &'static str) {
        match self {
            VcsEvidence::Git => "Git",
        }
    }
}

impl Labelled for EcosystemEvidence {
    open spec fn label_text(&self) -> Seq<char> {
        match self {
            EcosystemEvidence::Cargo => "Cargo"@,
            EcosystemEvidence::NodeJs => "Node.js"@,
            EcosystemEvidence::Python => "Python"@,
            EcosystemEvidence::Go => "Go"@,
            EcosystemEvidence::Maven => "Maven"@,
        }
    }

    fn label(&self) -> (s: &'static str) {
        match self {
            EcosystemEvidence::Cargo => "Cargo",
            EcosystemEvidence::NodeJs => "Node.js",
            EcosystemEvidence::Python => "Python",
            EcosystemEvidence::Go => "Go",
            EcosystemEvidence::Maven => "Maven",
        }
    }
}

impl Labelled for FrameworkEvidence {
    open spec fn label_text(&self) -> Seq<char> {
        match self {
            FrameworkEvidence::NextJs => "Next.js"@,
        }
    }

    fn label(&self) -> (s: &'static str) {
        match self {
            FrameworkEvidence::NextJs => "Next.js",
        }
    }
}

impl Labelled for BuildSystemEvidence {
    open spec fn label_text(&self) -> Seq<char> {
        match self {
            BuildSystemEvidence::CMake => "CMake"@,
        }
    }

    fn label(&self) -> (s: &'static str) {
        match self {
            BuildSystemEvidence::CMake => "CMake",
        }
    }
}

impl Labelled for InfrastructureEvidence {
    open spec fn label_text(&self) -> Seq<char> {
        match self {
            InfrastructureEvidence::DockerCompose => "Docker Compose"@,
            InfrastructureEvidence::Kubernetes => "Kubernetes"@,
            InfrastructureEvidence::Supabase => "Supabase"@,
        }
    }

    fn label(&self) -> (s: &'static str) {
        match self {
            InfrastructureEvidence::DockerCompose => "Docker Compose",
            InfrastructureEvidence::Kubernetes => "Kubernetes",
            InfrastructureEvidence::Supabase => "Supabase",
        }
    }
}

} // verus!
