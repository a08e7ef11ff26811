use std::collections::BTreeMap;

use uridim::build_systems::find_build_system_candidates;
use uridim::candidate::{
    BuildSystemEvidence, Candidate, EcosystemEvidence, Evidence, FrameworkEvidence,
    InfrastructureEvidence, VcsEvidence,
};
use uridim::discovery::{
    find_by_content_in_directory, find_path_in_descendants, path_spec, ContentRule, DirEntry,
    EntryCheck, EntryKind, Outcome, Scan, Step,
};
use uridim::exclusion::{default_exclusions, is_excluded, ExclusionSpec};
use uridim::frameworks::framework_content_specs;
use uridim::ecosystems::find_ecosystem_candidates;
use uridim::framework::PackageManifest;
use uridim::frameworks::{find_framework_candidates, FrameworkSearch};
use uridim::git::{find_git_root, first_found};
use uridim::infrastructure::find_infrastructure_candidates;
use uridim::marker::{
    find_build_candidates, find_component_candidates, find_operational_candidates,
    find_root_candidates,
};
use uridim::path::ProjectPath;
use uridim::vcs::find_vcs_candidates;

/// What an in-memory filesystem holds at a path.
enum Node {
    Dir,
    /// A file; for a `package.json`, the dependency names its text parses
    /// to (`None` when it does not parse).
    File(Option<(Vec<&'static str>, Vec<&'static str>)>),
    /// An entry whose metadata cannot be read.
    Broken,
    /// A directory that cannot be listed.
    Unlistable,
}

/// A filesystem held in memory, keyed by the text of each path.
struct FakeFs {
    nodes: BTreeMap<String, Node>,
}

impl FakeFs {
    fn new() -> Self {
        FakeFs { nodes: BTreeMap::new() }
    }

    fn parents(&mut self, path: &str) {
        let mut prefix = String::new();
        let parts: Vec<&str> = path.split('/').filter(|p| !p.is_empty()).collect();
        for part in parts.iter().take(parts.len().saturating_sub(1)) {
            prefix.push('/');
            prefix.push_str(part);
            self.nodes.entry(prefix.clone()).or_insert(Node::Dir);
        }
    }

    fn dir(&mut self, path: &str) -> &mut Self {
        self.parents(path);
        self.nodes.insert(path.to_string(), Node::Dir);
        self
    }

    fn file(&mut self, path: &str) -> &mut Self {
        self.parents(path);
        self.nodes.insert(path.to_string(), Node::File(None));
        self
    }

    fn manifest(&mut self, path: &str, deps: Vec<&'static str>, dev: Vec<&'static str>) -> &mut Self {
        self.parents(path);
        self.nodes.insert(path.to_string(), Node::File(Some((deps, dev))));
        self
    }

    fn special(&mut self, path: &str, node: Node) -> &mut Self {
        self.parents(path);
        self.nodes.insert(path.to_string(), node);
        self
    }

    fn probe(&self, path: &ProjectPath, check: EntryCheck) -> Outcome {
        let key = path.display();
        match (self.nodes.get(&key), check) {
            (None, _) => Outcome::Missing,
            (Some(Node::Broken), _) => Outcome::Failed,
            (Some(Node::File(m)), EntryCheck::Content(_)) => Outcome::Read(m.as_ref().map(|(d, v)| {
                PackageManifest {
                    dependencies: d.iter().map(|s| s.to_string()).collect(),
                    dev_dependencies: v.iter().map(|s| s.to_string()).collect(),
                }
            })),
            (Some(_), EntryCheck::Content(_)) => Outcome::Failed,
            (Some(Node::File(_)), _) => Outcome::Found { is_file: true, is_dir: false },
            (Some(_), _) => Outcome::Found { is_file: false, is_dir: true },
        }
    }

    fn list(&self, dir: &ProjectPath) -> Option<Vec<DirEntry>> {
        let key = dir.display();
        if let Some(Node::Unlistable) = self.nodes.get(&key) {
            return None;
        }
        let prefix = if key.ends_with('/') { key.clone() } else { format!("{key}/") };
        let mut entries = Vec::new();
        for (path, node) in &self.nodes {
            if let Some(rest) = path.strip_prefix(&prefix) {
                if !rest.is_empty() && !rest.contains('/') {
                    entries.push(DirEntry {
                        name: rest.to_string(),
                        is_dir: matches!(node, Node::Dir | Node::Unlistable),
                    });
                }
            }
        }
        Some(entries)
    }
}

fn run(mut scan: Scan, fs: &FakeFs) -> Result<Vec<Candidate>, ()> {
    loop {
        match scan.next_step() {
            Step::Probe { path, check } => scan.record(fs.probe(&path, check)),
            Step::List { directory } => match fs.list(&directory) {
                Some(entries) => scan.record_listing(entries),
                None => scan.record_listing_failure(),
            },
            Step::Finished => return Ok(scan.into_candidates()),
            Step::Failed => return Err(()),
        }
    }
}

fn run_frameworks(mut search: FrameworkSearch, fs: &FakeFs) -> Result<Vec<Candidate>, ()> {
    loop {
        match search.next_step() {
            Step::Probe { path, check } => search.record(fs.probe(&path, check)),
            Step::List { directory } => match fs.list(&directory) {
                Some(entries) => search.record_listing(entries),
                None => search.record_listing_failure(),
            },
            Step::Finished => return Ok(search.into_candidates()),
            Step::Failed => return Err(()),
        }
    }
}

fn path(text: &str) -> ProjectPath {
    ProjectPath::parse(text)
}

// ----- Version control -----

#[test]
fn finds_git_directory_in_ancestors() {
    let mut fs = FakeFs::new();
    fs.dir("/tmp/project/src/nested").dir("/tmp/project/.git");

    let candidates = run(find_vcs_candidates(&path("/tmp/project/src/nested")), &fs).unwrap();

    assert_eq!(candidates.len(), 1);
    let candidate = &candidates[0];
    assert_eq!(candidate.name, "project");
    assert_eq!(candidate.scope_path, path("/tmp/project"));
    assert_eq!(candidate.evidence, Evidence::Vcs(VcsEvidence::Git));
    assert_eq!(candidate.source_path, path("/tmp/project/.git"));
}

#[test]
fn returns_empty_when_no_vcs_marker_exists() {
    let mut fs = FakeFs::new();
    fs.dir("/tmp/project/src");

    let candidates = run(find_vcs_candidates(&path("/tmp/project/src")), &fs).unwrap();

    assert!(candidates.is_empty());
}

#[test]
fn finds_multiple_git_ancestors() {
    let mut fs = FakeFs::new();
    fs.dir("/tmp/outer/inner/src").dir("/tmp/outer/.git").dir("/tmp/outer/inner/.git");

    let candidates = run(find_vcs_candidates(&path("/tmp/outer/inner/src")), &fs).unwrap();

    assert_eq!(candidates.len(), 2);
    assert_eq!(candidates[0].scope_path, path("/tmp/outer/inner"));
    assert_eq!(candidates[0].source_path, path("/tmp/outer/inner/.git"));
    assert_eq!(candidates[1].scope_path, path("/tmp/outer"));
    assert_eq!(candidates[1].source_path, path("/tmp/outer/.git"));
}

#[test]
fn ignores_git_file_because_spec_requires_directory() {
    let mut fs = FakeFs::new();
    fs.dir("/tmp/project/src").file("/tmp/project/.git");

    let candidates = run(find_vcs_candidates(&path("/tmp/project/src")), &fs).unwrap();

    assert!(candidates.is_empty());
}

#[test]
fn names_the_filesystem_root_by_its_display() {
    let mut fs = FakeFs::new();
    fs.dir("/.git").dir("/work");

    let candidates = run(find_vcs_candidates(&path("/work")), &fs).unwrap();

    assert_eq!(candidates.len(), 1);
    assert_eq!(candidates[0].name, "/");
    assert_eq!(candidates[0].source_path, path("/.git"));
}

#[test]
fn ancestor_probe_error_fails_the_scan() {
    let mut fs = FakeFs::new();
    fs.dir("/tmp/project/src").special("/tmp/project/.git", Node::Broken);

    assert!(run(find_vcs_candidates(&path("/tmp/project/src")), &fs).is_err());
}

// ----- Git root -----

#[test]
fn finds_git_root_from_nested_directory() {
    let mut fs = FakeFs::new();
    fs.dir("/tmp/git-root/project/src/nested").dir("/tmp/git-root/project/.git");

    let candidate = first_found(
        run(find_git_root(&path("/tmp/git-root/project/src/nested")), &fs).unwrap(),
    )
    .expect("Git root should be discovered");

    assert_eq!(candidate.name, "project");
    assert_eq!(candidate.scope_path, path("/tmp/git-root/project"));
    assert_eq!(candidate.evidence, Evidence::Vcs(VcsEvidence::Git));
    assert_eq!(candidate.source_path, path("/tmp/git-root/project/.git"));
}

#[test]
fn returns_none_when_no_git_marker_exists() {
    let mut fs = FakeFs::new();
    fs.dir("/tmp/no-git/a/b/c");

    let found = run(find_git_root(&path("/tmp/no-git/a/b/c")), &fs).unwrap();

    assert_eq!(first_found(found), None);
}

#[test]
fn accepts_git_marker_as_file() {
    let mut fs = FakeFs::new();
    fs.dir("/tmp/git-file/project/src").file("/tmp/git-file/project/.git");

    let candidate = first_found(run(find_git_root(&path("/tmp/git-file/project/src")), &fs).unwrap())
        .expect("Git marker file should be discovered");

    assert_eq!(candidate.scope_path, path("/tmp/git-file/project"));
    assert_eq!(candidate.evidence, Evidence::Vcs(VcsEvidence::Git));
    assert_eq!(candidate.source_path, path("/tmp/git-file/project/.git"));
}

#[test]
fn returns_nearest_git_root_when_roots_are_nested() {
    let mut fs = FakeFs::new();
    fs.dir("/tmp/n/outer/inner/src").dir("/tmp/n/outer/.git").dir("/tmp/n/outer/inner/.git");

    let found = run(find_git_root(&path("/tmp/n/outer/inner/src")), &fs).unwrap();

    assert_eq!(found.len(), 1);
    let candidate = first_found(found).expect("nearest Git root should be discovered");
    assert_eq!(candidate.scope_path, path("/tmp/n/outer/inner"));
    assert_eq!(candidate.source_path, path("/tmp/n/outer/inner/.git"));
}

#[test]
fn git_root_ignores_errors_beyond_the_nearest_root() {
    let mut fs = FakeFs::new();
    fs.dir("/tmp/p/src").dir("/tmp/p/.git").special("/tmp/.git", Node::Broken);

    let found = run(find_git_root(&path("/tmp/p/src")), &fs).unwrap();

    assert_eq!(found.len(), 1);
}

// ----- Ecosystems -----

#[test]
fn detects_each_supported_ecosystem() {
    let cases = [
        ("Cargo.toml", EcosystemEvidence::Cargo),
        ("package.json", EcosystemEvidence::NodeJs),
        ("pyproject.toml", EcosystemEvidence::Python),
        ("go.mod", EcosystemEvidence::Go),
        ("pom.xml", EcosystemEvidence::Maven),
    ];

    for (relative_path, expected_evidence) in cases {
        let mut fs = FakeFs::new();
        let source = format!("/tmp/project/{relative_path}");
        fs.dir("/tmp/project").file(&source);

        let candidates = run(find_ecosystem_candidates(&path("/tmp/project")), &fs).unwrap();

        assert_eq!(candidates.len(), 1, "expected one candidate for {relative_path}");
        let candidate = &candidates[0];
        assert_eq!(candidate.scope_path, path("/tmp/project"));
        assert_eq!(candidate.evidence, Evidence::Ecosystem(expected_evidence));
        assert_eq!(candidate.source_path, path(&source));
    }
}

#[test]
fn finds_ecosystems_in_nested_descendants() {
    let mut fs = FakeFs::new();
    fs.file("/tmp/project/frontend/package.json").file("/tmp/project/backend/Cargo.toml");

    let candidates = run(find_ecosystem_candidates(&path("/tmp/project")), &fs).unwrap();

    assert_eq!(candidates.len(), 2);
    assert!(candidates.iter().any(|candidate| {
        candidate.scope_path == path("/tmp/project/frontend")
            && candidate.source_path == path("/tmp/project/frontend/package.json")
            && candidate.evidence == Evidence::Ecosystem(EcosystemEvidence::NodeJs)
    }));
    assert!(candidates.iter().any(|candidate| {
        candidate.scope_path == path("/tmp/project/backend")
            && candidate.source_path == path("/tmp/project/backend/Cargo.toml")
            && candidate.evidence == Evidence::Ecosystem(EcosystemEvidence::Cargo)
    }));
}

#[test]
fn finds_multiple_ecosystems_in_same_scope() {
    let mut fs = FakeFs::new();
    fs.file("/tmp/project/Cargo.toml").file("/tmp/project/package.json");

    let candidates = run(find_ecosystem_candidates(&path("/tmp/project")), &fs).unwrap();

    assert_eq!(candidates.len(), 2);
    assert_eq!(candidates[0].evidence, Evidence::Ecosystem(EcosystemEvidence::Cargo));
    assert_eq!(candidates[1].evidence, Evidence::Ecosystem(EcosystemEvidence::NodeJs));
}

#[test]
fn prunes_default_excluded_directories() {
    let mut fs = FakeFs::new();
    fs.file("/tmp/project/node_modules/nested/Cargo.toml");

    let candidates = run(find_ecosystem_candidates(&path("/tmp/project")), &fs).unwrap();

    assert!(candidates.is_empty());
}

#[test]
fn ignores_directory_named_like_manifest() {
    let mut fs = FakeFs::new();
    fs.dir("/tmp/project/Cargo.toml");

    let candidates = run(find_ecosystem_candidates(&path("/tmp/project")), &fs).unwrap();

    assert!(candidates.is_empty());
}

#[test]
fn excluded_root_itself_is_still_searched() {
    let mut fs = FakeFs::new();
    fs.file("/tmp/target/Cargo.toml").file("/tmp/target/target/go.mod");

    let candidates = run(find_ecosystem_candidates(&path("/tmp/target")), &fs).unwrap();

    assert_eq!(candidates.len(), 1);
    assert_eq!(candidates[0].scope_path, path("/tmp/target"));
}

#[test]
fn descends_depth_first_from_the_last_listed_directory() {
    let mut fs = FakeFs::new();
    fs.file("/r/a/go.mod").file("/r/a/x/go.mod").file("/r/b/go.mod");

    let candidates = run(find_ecosystem_candidates(&path("/r")), &fs).unwrap();

    let scopes: Vec<String> = candidates.iter().map(|c| c.scope_path.display()).collect();
    assert_eq!(scopes, vec!["/r/b", "/r/a", "/r/a/x"]);
}

#[test]
fn listing_error_fails_the_scan() {
    let mut fs = FakeFs::new();
    fs.file("/tmp/project/Cargo.toml").special("/tmp/project/locked", Node::Unlistable);

    assert!(run(find_ecosystem_candidates(&path("/tmp/project")), &fs).is_err());
}

// ----- Build systems -----

#[test]
fn detects_cmake_build_system() {
    let mut fs = FakeFs::new();
    fs.file("/tmp/project/CMakeLists.txt");

    let candidates = run(find_build_system_candidates(&path("/tmp/project")), &fs).unwrap();

    assert_eq!(candidates.len(), 1);
    let candidate = &candidates[0];
    assert_eq!(candidate.scope_path, path("/tmp/project"));
    assert_eq!(candidate.evidence, Evidence::BuildSystem(BuildSystemEvidence::CMake));
    assert_eq!(candidate.source_path, path("/tmp/project/CMakeLists.txt"));
}

#[test]
fn finds_cmake_in_nested_descendants() {
    let mut fs = FakeFs::new();
    fs.file("/tmp/project/native/CMakeLists.txt");

    let candidates = run(find_build_system_candidates(&path("/tmp/project")), &fs).unwrap();

    assert_eq!(candidates.len(), 1);
    assert_eq!(candidates[0].scope_path, path("/tmp/project/native"));
}

#[test]
fn ignores_directory_named_like_cmake_file() {
    let mut fs = FakeFs::new();
    fs.dir("/tmp/project/CMakeLists.txt");

    let candidates = run(find_build_system_candidates(&path("/tmp/project")), &fs).unwrap();

    assert!(candidates.is_empty());
}

#[test]
fn prunes_build_systems_in_excluded_directories() {
    let mut fs = FakeFs::new();
    fs.file("/tmp/project/target/generated/CMakeLists.txt");

    let candidates = run(find_build_system_candidates(&path("/tmp/project")), &fs).unwrap();

    assert!(candidates.is_empty());
}

// ----- Infrastructure -----

#[test]
fn detects_docker_compose() {
    let mut fs = FakeFs::new();
    fs.file("/tmp/project/compose.yaml");

    let candidates = run(find_infrastructure_candidates(&path("/tmp/project")), &fs).unwrap();

    assert_eq!(candidates.len(), 1);
    let candidate = &candidates[0];
    assert_eq!(candidate.scope_path, path("/tmp/project"));
    assert_eq!(
        candidate.evidence,
        Evidence::Infrastructure(InfrastructureEvidence::DockerCompose)
    );
    assert_eq!(candidate.source_path, path("/tmp/project/compose.yaml"));
}

#[test]
fn detects_kubernetes_kustomization() {
    let mut fs = FakeFs::new();
    fs.file("/tmp/project/kustomization.yaml");

    let candidates = run(find_infrastructure_candidates(&path("/tmp/project")), &fs).unwrap();

    assert_eq!(candidates.len(), 1);
    assert_eq!(
        candidates[0].evidence,
        Evidence::Infrastructure(InfrastructureEvidence::Kubernetes)
    );
    assert_eq!(candidates[0].source_path, path("/tmp/project/kustomization.yaml"));
}

#[test]
fn detects_supabase_config() {
    let mut fs = FakeFs::new();
    fs.file("/tmp/project/supabase/config.toml");

    let candidates = run(find_infrastructure_candidates(&path("/tmp/project")), &fs).unwrap();

    assert_eq!(candidates.len(), 1);
    let candidate = &candidates[0];
    assert_eq!(candidate.scope_path, path("/tmp/project"));
    assert_eq!(
        candidate.evidence,
        Evidence::Infrastructure(InfrastructureEvidence::Supabase)
    );
    assert_eq!(candidate.source_path, path("/tmp/project/supabase/config.toml"));
}

#[test]
fn finds_infrastructure_in_nested_descendants() {
    let mut fs = FakeFs::new();
    fs.file("/tmp/project/deploy/docker-compose.yml");

    let candidates = run(find_infrastructure_candidates(&path("/tmp/project")), &fs).unwrap();

    assert_eq!(candidates.len(), 1);
    assert_eq!(candidates[0].scope_path, path("/tmp/project/deploy"));
}

#[test]
fn prunes_infrastructure_in_excluded_directories() {
    let mut fs = FakeFs::new();
    fs.file("/tmp/project/.next/generated/compose.yaml");

    let candidates = run(find_infrastructure_candidates(&path("/tmp/project")), &fs).unwrap();

    assert!(candidates.is_empty());
}

// ----- Frameworks -----

#[test]
fn detects_next_js_from_dependencies() {
    let mut fs = FakeFs::new();
    fs.manifest("/tmp/frontend/package.json", vec!["next"], vec![]);

    let candidates = run_frameworks(find_framework_candidates(&path("/tmp/frontend")), &fs).unwrap();

    assert_eq!(candidates.len(), 1);
    let candidate = &candidates[0];
    assert_eq!(candidate.scope_path, path("/tmp/frontend"));
    assert_eq!(candidate.evidence, Evidence::Framework(FrameworkEvidence::NextJs));
    assert_eq!(candidate.source_path, path("/tmp/frontend/package.json"));
}

#[test]
fn detects_next_js_from_dev_dependencies() {
    let mut fs = FakeFs::new();
    fs.manifest("/tmp/frontend/package.json", vec![], vec!["next"]);

    let candidates = run_frameworks(find_framework_candidates(&path("/tmp/frontend")), &fs).unwrap();

    assert_eq!(candidates.len(), 1);
    assert_eq!(candidates[0].evidence, Evidence::Framework(FrameworkEvidence::NextJs));
}

#[test]
fn finds_frameworks_in_nested_descendants() {
    let mut fs = FakeFs::new();
    fs.manifest("/tmp/project/apps/web/package.json", vec!["next"], vec![]);

    let candidates = run_frameworks(find_framework_candidates(&path("/tmp/project")), &fs).unwrap();

    assert_eq!(candidates.len(), 1);
    assert_eq!(candidates[0].scope_path, path("/tmp/project/apps/web"));
}

#[test]
fn ignores_package_json_without_supported_framework() {
    let mut fs = FakeFs::new();
    fs.manifest("/tmp/frontend/package.json", vec!["react"], vec![]);

    let candidates = run_frameworks(find_framework_candidates(&path("/tmp/frontend")), &fs).unwrap();

    assert!(candidates.is_empty());
}

#[test]
fn malformed_package_json_does_not_produce_framework_candidate() {
    let mut fs = FakeFs::new();
    fs.file("/tmp/frontend/package.json");

    let candidates = run_frameworks(find_framework_candidates(&path("/tmp/frontend")), &fs).unwrap();

    assert!(candidates.is_empty());
}

#[test]
fn prunes_framework_manifests_in_excluded_directories() {
    let mut fs = FakeFs::new();
    fs.manifest("/tmp/project/node_modules/some-package/package.json", vec!["next"], vec![]);

    let candidates = run_frameworks(find_framework_candidates(&path("/tmp/project")), &fs).unwrap();

    assert!(candidates.is_empty());
}

#[test]
fn reports_frameworks_in_manifest_discovery_order() {
    let mut fs = FakeFs::new();
    fs.manifest("/r/a/package.json", vec!["next"], vec![])
        .manifest("/r/b/package.json", vec!["react"], vec![])
        .manifest("/r/c/package.json", vec![], vec!["next"]);

    let candidates = run_frameworks(find_framework_candidates(&path("/r")), &fs).unwrap();

    let scopes: Vec<String> = candidates.iter().map(|c| c.scope_path.display()).collect();
    assert_eq!(scopes, vec!["/r/c", "/r/a"]);
}

#[test]
fn frameworks_are_the_node_manifests_that_declare_next() {
    let mut fs = FakeFs::new();
    fs.manifest("/r/package.json", vec!["react"], vec![])
        .file("/r/Cargo.toml")
        .manifest("/r/apps/web/package.json", vec!["next"], vec![])
        .file("/r/apps/web/go.mod")
        .manifest("/r/apps/docs/package.json", vec![], vec!["next"])
        .manifest("/r/node_modules/x/package.json", vec!["next"], vec![])
        .dir("/r/tools/package.json")
        .file("/r/tools/pyproject.toml");
    let declares_next = ["/r/apps/web", "/r/apps/docs"];

    let ecosystems = run(find_ecosystem_candidates(&path("/r")), &fs).unwrap();
    let frameworks = run_frameworks(find_framework_candidates(&path("/r")), &fs).unwrap();

    let expected: Vec<(String, String, String)> = ecosystems
        .iter()
        .filter(|c| c.evidence == Evidence::Ecosystem(EcosystemEvidence::NodeJs))
        .filter(|c| declares_next.contains(&c.scope_path.display().as_str()))
        .map(|c| (c.name.clone(), c.scope_path.display(), c.source_path.display()))
        .collect();
    let found: Vec<(String, String, String)> = frameworks
        .iter()
        .map(|c| (c.name.clone(), c.scope_path.display(), c.source_path.display()))
        .collect();
    assert_eq!(found.len(), 2);
    assert_eq!(found, expected);
    assert!(frameworks
        .iter()
        .all(|c| c.evidence == Evidence::Framework(FrameworkEvidence::NextJs)));
}

// ----- Markers -----

#[test]
fn returns_empty_when_no_root_markers_are_configured() {
    let mut fs = FakeFs::new();
    fs.dir("/tmp/no-root-markers/project/src/nested").dir("/tmp/no-root-markers/project/.git");

    let candidates =
        run(find_root_candidates(&path("/tmp/no-root-markers/project/src/nested")), &fs).unwrap();

    assert!(candidates.is_empty());
}

#[test]
fn root_scan_is_finished_before_asking_anything() {
    for start in ["/", "", "relative/dir", "/does/not/exist"] {
        let scan = find_root_candidates(&path(start));
        assert!(matches!(scan.next_step(), Step::Finished));
        assert!(scan.into_candidates().is_empty());
    }
}

#[test]
fn detects_cargo_component_without_git() {
    let mut fs = FakeFs::new();
    fs.dir("/tmp/c/project/src/nested").file("/tmp/c/project/Cargo.toml");

    let candidates = run(find_component_candidates(&path("/tmp/c/project/src/nested")), &fs).unwrap();

    assert_eq!(candidates.len(), 1);
    let candidate = &candidates[0];
    assert_eq!(candidate.name, "project");
    assert_eq!(candidate.scope_path, path("/tmp/c/project"));
    assert_eq!(candidate.evidence, Evidence::Ecosystem(EcosystemEvidence::Cargo));
    assert_eq!(candidate.source_path, path("/tmp/c/project/Cargo.toml"));
}

#[test]
fn finds_component_candidates_at_multiple_ancestors() {
    let mut fs = FakeFs::new();
    fs.dir("/tmp/w/workspace/member/src")
        .file("/tmp/w/workspace/Cargo.toml")
        .file("/tmp/w/workspace/member/Cargo.toml");

    let candidates = run(find_component_candidates(&path("/tmp/w/workspace/member/src")), &fs).unwrap();

    assert_eq!(candidates.len(), 2);
    assert_eq!(candidates[0].scope_path, path("/tmp/w/workspace/member"));
    assert_eq!(candidates[1].scope_path, path("/tmp/w/workspace"));
}

#[test]
fn ignores_directory_named_like_component_marker() {
    let mut fs = FakeFs::new();
    fs.dir("/tmp/d/project/src").dir("/tmp/d/project/Cargo.toml");

    let candidates = run(find_component_candidates(&path("/tmp/d/project/src")), &fs).unwrap();

    assert!(candidates.is_empty());
}

#[test]
fn finds_build_candidates_at_multiple_ancestors() {
    let mut fs = FakeFs::new();
    fs.dir("/tmp/b/outer/inner/src")
        .file("/tmp/b/outer/CMakeLists.txt")
        .file("/tmp/b/outer/inner/CMakeLists.txt");

    let candidates = run(find_build_candidates(&path("/tmp/b/outer/inner/src")), &fs).unwrap();

    assert_eq!(candidates.len(), 2);
    assert_eq!(candidates[0].scope_path, path("/tmp/b/outer/inner"));
    assert_eq!(candidates[1].scope_path, path("/tmp/b/outer"));
    assert_eq!(candidates[0].evidence, Evidence::BuildSystem(BuildSystemEvidence::CMake));
}

#[test]
fn detects_nested_supabase_operational_marker() {
    let mut fs = FakeFs::new();
    fs.dir("/tmp/s/project/src").file("/tmp/s/project/supabase/config.toml");

    let candidates = run(find_operational_candidates(&path("/tmp/s/project/src")), &fs).unwrap();

    assert_eq!(candidates.len(), 1);
    assert_eq!(candidates[0].scope_path, path("/tmp/s/project"));
    assert_eq!(
        candidates[0].evidence,
        Evidence::Infrastructure(InfrastructureEvidence::Supabase)
    );
    assert_eq!(candidates[0].source_path, path("/tmp/s/project/supabase/config.toml"));
}

#[test]
fn finished_scan_ignores_further_answers() {
    let mut fs = FakeFs::new();
    fs.dir("/tmp/project/.git");

    let mut scan = find_vcs_candidates(&path("/tmp/project"));
    loop {
        match scan.next_step() {
            Step::Probe { path, check } => scan.record(fs.probe(&path, check)),
            Step::List { .. } => unreachable!("an upward scan never lists"),
            Step::Finished => break,
            Step::Failed => panic!("unexpected failure"),
        }
    }
    scan.record(Outcome::Failed);
    scan.record_listing_failure();

    assert!(matches!(scan.next_step(), Step::Finished));
    assert_eq!(scan.into_candidates().len(), 1);
}

#[test]
fn upward_scan_probes_each_ancestor_nearest_first() {
    let mut scan = find_vcs_candidates(&path("/a/b"));
    let mut probed = Vec::new();
    while let Step::Probe { path, .. } = scan.next_step() {
        probed.push(path.display());
        scan.record(Outcome::Missing);
    }

    assert_eq!(probed, vec!["/a/b/.git", "/a/.git", "/.git"]);
    assert!(matches!(scan.next_step(), Step::Finished));
}

#[test]
fn content_scan_checks_one_directory() {
    let mut fs = FakeFs::new();
    fs.manifest("/tmp/app/package.json", vec!["next"], vec![]);

    let found = run(
        find_by_content_in_directory(&path("/tmp/app"), framework_content_specs()),
        &fs,
    )
    .unwrap();

    assert_eq!(found.len(), 1);
    assert_eq!(found[0].source_path, path("/tmp/app/package.json"));
    assert_eq!(found[0].evidence, Evidence::Framework(FrameworkEvidence::NextJs));
}

#[test]
fn content_scan_fails_on_unreadable_manifest() {
    let mut fs = FakeFs::new();
    fs.dir("/tmp/app/package.json");

    let scan = find_by_content_in_directory(&path("/tmp/app"), framework_content_specs());

    assert!(run(scan, &fs).is_err());
}

#[test]
fn descendant_scan_uses_given_exclusions_and_checks() {
    let mut fs = FakeFs::new();
    fs.dir("/r/skip/.git").dir("/r/keep/.git").file("/r/.git");

    let specs = vec![path_spec(
        ".git",
        EntryCheck::Kind(EntryKind::Directory),
        Evidence::Vcs(VcsEvidence::Git),
    )];
    let exclusions = vec![ExclusionSpec { directory_name: "skip".to_string() }];

    let found = run(find_path_in_descendants(&path("/r"), specs, exclusions), &fs).unwrap();

    assert_eq!(found.len(), 1);
    assert_eq!(found[0].scope_path, path("/r/keep"));
}

#[test]
fn default_exclusions_are_build_and_package_directories() {
    let exclusions = default_exclusions();

    assert!(is_excluded(&"target".to_string(), &exclusions));
    assert!(is_excluded(&"node_modules".to_string(), &exclusions));
    assert!(is_excluded(&".next".to_string(), &exclusions));
    assert!(!is_excluded(&"src".to_string(), &exclusions));
    assert!(!is_excluded(&"Target".to_string(), &exclusions));
}

#[test]
fn content_rule_only_reads_manifests() {
    let specs = framework_content_specs();

    assert_eq!(specs.len(), 1);
    assert_eq!(specs[0].relative_path, "package.json");
    assert_eq!(specs[0].check, EntryCheck::Content(ContentRule::NextJsDependency));
}
