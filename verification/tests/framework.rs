use uridim::framework::{
    contains_next_js, detect_frameworks, FrameworkError, FrameworkKind, ManifestRead,
    PackageManifest,
};
use uridim::path::ProjectPath;

fn manifest(deps: &[&str], dev: &[&str]) -> PackageManifest {
    PackageManifest {
        dependencies: deps.iter().map(|s| s.to_string()).collect(),
        dev_dependencies: dev.iter().map(|s| s.to_string()).collect(),
    }
}

#[test]
fn detects_nextjs_from_dependencies() {
    let dir = ProjectPath::parse("/tmp/app");

    let frameworks = detect_frameworks(&dir, ManifestRead::Parsed(manifest(&["next"], &[]))).unwrap();

    assert_eq!(frameworks.len(), 1);
    assert_eq!(frameworks[0].framework, FrameworkKind::NextJs);
    assert_eq!(frameworks[0].source_path, ProjectPath::parse("/tmp/app/package.json"));
}

#[test]
fn detects_nextjs_from_dev_dependencies() {
    let dir = ProjectPath::parse("/tmp/app");

    let frameworks = detect_frameworks(&dir, ManifestRead::Parsed(manifest(&[], &["next"]))).unwrap();

    assert_eq!(frameworks.len(), 1);
    assert_eq!(frameworks[0].source_path, ProjectPath::parse("/tmp/app/package.json"));
}

#[test]
fn does_not_detect_nextjs_from_unrelated_dependencies() {
    let dir = ProjectPath::parse("/tmp/app");

    let frameworks = detect_frameworks(&dir, ManifestRead::Parsed(manifest(&["react"], &[]))).unwrap();

    assert!(frameworks.is_empty());
}

#[test]
fn does_not_detect_nextjs_from_script_name() {
    let dir = ProjectPath::parse("/tmp/app");

    let frameworks = detect_frameworks(&dir, ManifestRead::Parsed(manifest(&[], &[]))).unwrap();

    assert!(frameworks.is_empty());
}

#[test]
fn returns_empty_when_package_json_is_absent() {
    let dir = ProjectPath::parse("/tmp/app");

    let frameworks = detect_frameworks(&dir, ManifestRead::Missing).unwrap();

    assert!(frameworks.is_empty());
}

#[test]
fn returns_error_for_malformed_package_json() {
    let dir = ProjectPath::parse("/tmp/app");

    let error = detect_frameworks(&dir, ManifestRead::Malformed).unwrap_err();

    match error {
        FrameworkError::ParseManifest { path } => {
            assert_eq!(path, ProjectPath::parse("/tmp/app/package.json"));
        }
        other => panic!("expected parse manifest error, got {other:?}"),
    }
}

#[test]
fn returns_error_for_unreadable_package_json() {
    let dir = ProjectPath::parse("/tmp/app");

    let error = detect_frameworks(&dir, ManifestRead::Unreadable).unwrap_err();

    assert_eq!(
        error,
        FrameworkError::ReadManifest { path: ProjectPath::parse("/tmp/app/package.json") }
    );
}

#[test]
fn unparsed_manifest_declares_nothing() {
    assert!(!contains_next_js(None));
    assert!(contains_next_js(Some(&manifest(&["react", "next"], &[]))));
    assert!(!contains_next_js(Some(&manifest(&["nextjs", "Next"], &["next-auth"]))));
}
