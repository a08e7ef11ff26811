use uridim::path::{dot_name, segments, ProjectPath};

#[test]
fn parses_absolute_and_relative_paths() {
    let absolute = ProjectPath::parse("/projects//uridim/");
    assert_eq!(absolute.root, "/");
    assert_eq!(absolute.components, vec!["projects", "uridim"]);

    let relative = ProjectPath::parse("crates/uridim");
    assert_eq!(relative.root, "");
    assert_eq!(relative.components, vec!["crates", "uridim"]);
}

#[test]
fn displays_root_then_components() {
    assert_eq!(ProjectPath::parse("/a/b").display(), "/a/b");
    assert_eq!(ProjectPath::parse("a/b").display(), "a/b");
    assert_eq!(ProjectPath::parse("/").display(), "/");
    assert_eq!(ProjectPath::parse("").display(), "");
}

#[test]
fn joins_multi_segment_relative_paths() {
    let joined = ProjectPath::parse("/p").join("supabase/config.toml");
    assert_eq!(joined, ProjectPath::parse("/p/supabase/config.toml"));
    assert_eq!(segments("a//b/"), vec!["a", "b"]);
}

#[test]
fn names_by_last_component_or_display() {
    assert_eq!(ProjectPath::parse("/a/b").name(), "b");
    assert_eq!(ProjectPath::parse("/").name(), "/");
    assert_eq!(ProjectPath::parse("a/..").name(), "a/..");
    assert!(dot_name("."));
    assert!(dot_name(".."));
    assert!(!dot_name("..."));
}

#[test]
fn ancestors_keep_leading_components() {
    let p = ProjectPath::parse("/a/b/c");
    assert_eq!(p.ancestor(1), ProjectPath::parse("/a"));
    assert_eq!(p.ancestor(0), ProjectPath::parse("/"));
    assert_eq!(p.child(&"d".to_string()), ProjectPath::parse("/a/b/c/d"));
}

#[test]
fn display_then_parse_round_trips() {
    for text in ["/", "", "/tmp/project/src", "crates/uridim", "/a/b.c/d-e"] {
        let p = ProjectPath::parse(text);
        assert_eq!(ProjectPath::parse(&p.display()), p);
    }
}

#[test]
fn drops_inner_dot_components() {
    assert_eq!(ProjectPath::parse("proj/."), ProjectPath::parse("proj"));
    assert_eq!(ProjectPath::parse("proj/.").name(), "proj");
    assert_eq!(ProjectPath::parse("/a/./b").components, vec!["a", "b"]);
    assert_eq!(ProjectPath::parse("./a").components, vec![".", "a"]);
    assert_eq!(ProjectPath::parse("/.").components, Vec::<String>::new());
}
