use uridim::marker::{build_markers, component_markers, operational_markers, root_markers};

#[test]
fn configured_marker_paths_are_not_empty() {
    assert!(
        root_markers()
            .iter()
            .all(|marker| !marker.relative_path.is_empty())
    );

    assert!(
        component_markers()
            .iter()
            .all(|marker| !marker.relative_path.is_empty())
    );

    assert!(
        build_markers()
            .iter()
            .all(|marker| !marker.relative_path.is_empty())
    );

    assert!(
        operational_markers()
            .iter()
            .all(|marker| !marker.relative_path.is_empty())
    );
}
