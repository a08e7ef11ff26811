use owo_colors::{OwoColorize, Rgb};

use uridim::candidate::{
    BuildSystemEvidence, EcosystemEvidence, FrameworkEvidence, InfrastructureEvidence, Labelled,
    VcsEvidence,
};
use uridim::path::ProjectPath;
use uridim::project_context::{Detected, ProjectContext};
use uridim::report::{write_project_context, PKG_VERSION};

const PKG_VERSION_COLOR: Rgb = Rgb(78, 172, 248);
const SECTION_COLOR: Rgb = Rgb(247, 104, 60);
const TOOL_COLOR: Rgb = Rgb(117, 251, 76);

fn empty_context() -> ProjectContext {
    ProjectContext {
        root: ProjectPath::parse("/project"),
        vcs: Vec::new(),
        ecosystems: Vec::new(),
        frameworks: Vec::new(),
        build_systems: Vec::new(),
        infrastructure: Vec::new(),
    }
}

fn detected<E>(evidence: E, source_path: &str) -> Detected<E> {
    Detected {
        evidence,
        scope_path: ProjectPath::parse("/project"),
        source_path: ProjectPath::parse(source_path),
    }
}

fn render(context: &ProjectContext) -> String {
    let mut output = String::new();

    write_project_context(&mut output, context);

    output
}

#[test]
fn reports_when_no_project_context_is_found() {
    let context = empty_context();

    let output = render(&context);

    let expected = format!(
        "Uridim {}\nProject: /project\n\nNo project context found.\n",
        PKG_VERSION.color(PKG_VERSION_COLOR)
    );

    assert_eq!(output, expected);
}

#[test]
fn writes_complete_project_context_in_deterministic_order() {
    let context = ProjectContext {
        root: ProjectPath::parse("/project"),
        vcs: vec![detected(VcsEvidence::Git, "/project/.git")],
        ecosystems: vec![detected(EcosystemEvidence::Cargo, "/project/Cargo.toml")],
        frameworks: vec![detected(FrameworkEvidence::NextJs, "/project/package.json")],
        build_systems: vec![detected(
            BuildSystemEvidence::CMake,
            "/project/CMakeLists.txt",
        )],
        infrastructure: vec![detected(
            InfrastructureEvidence::DockerCompose,
            "/project/compose.yaml",
        )],
    };

    let output = render(&context);

    let expected = format!(
        "Uridim {}\nProject: /project\n\n{}\n  {}\n  └─ /project/.git\n\n{}\n  {}\n  └─ /project/Cargo.toml\n\n{}\n  {}\n  └─ /project/package.json\n\n{}\n  {}\n  └─ /project/CMakeLists.txt\n\n{}\n  {}\n  └─ /project/compose.yaml\n",
        PKG_VERSION.color(PKG_VERSION_COLOR),
        "Version Control Systems".color(SECTION_COLOR),
        VcsEvidence::Git.label().color(TOOL_COLOR),
        "Ecosystems".color(SECTION_COLOR),
        EcosystemEvidence::Cargo.label().color(TOOL_COLOR),
        "Frameworks".color(SECTION_COLOR),
        FrameworkEvidence::NextJs.label().color(TOOL_COLOR),
        "Build Systems".color(SECTION_COLOR),
        BuildSystemEvidence::CMake.label().color(TOOL_COLOR),
        "Infrastructure".color(SECTION_COLOR),
        InfrastructureEvidence::DockerCompose.label().color(TOOL_COLOR),
    );

    assert_eq!(output, expected);
}

#[test]
fn omits_empty_sections() {
    let context = ProjectContext {
        root: ProjectPath::parse("/project"),
        vcs: Vec::new(),
        ecosystems: vec![detected(EcosystemEvidence::Cargo, "/project/Cargo.toml")],
        frameworks: Vec::new(),
        build_systems: Vec::new(),
        infrastructure: vec![detected(
            InfrastructureEvidence::DockerCompose,
            "/project/compose.yaml",
        )],
    };

    let output = render(&context);

    let expected = format!(
        "Uridim {}\nProject: /project\n\n{}\n  {}\n  └─ /project/Cargo.toml\n\n{}\n  {}\n  └─ /project/compose.yaml\n",
        PKG_VERSION.color(PKG_VERSION_COLOR),
        "Ecosystems".color(SECTION_COLOR),
        EcosystemEvidence::Cargo.label().color(TOOL_COLOR),
        "Infrastructure".color(SECTION_COLOR),
        InfrastructureEvidence::DockerCompose.label().color(TOOL_COLOR),
    );

    assert_eq!(output, expected);
}

#[test]
fn preserves_detection_order_within_a_section() {
    let context = ProjectContext {
        root: ProjectPath::parse("/project"),
        vcs: Vec::new(),
        ecosystems: vec![
            detected(EcosystemEvidence::Cargo, "/project/Cargo.toml"),
            detected(EcosystemEvidence::NodeJs, "/project/package.json"),
        ],
        frameworks: Vec::new(),
        build_systems: Vec::new(),
        infrastructure: Vec::new(),
    };

    let output = render(&context);

    let expected = format!(
        "Uridim {}\nProject: /project\n\n{}\n  {}\n  └─ /project/Cargo.toml\n  {}\n  └─ /project/package.json\n",
        PKG_VERSION.color(PKG_VERSION_COLOR),
        "Ecosystems".color(SECTION_COLOR),
        EcosystemEvidence::Cargo.label().color(TOOL_COLOR),
        EcosystemEvidence::NodeJs.label().color(TOOL_COLOR),
    );

    assert_eq!(output, expected);
}

#[test]
fn colours_use_ansi_truecolor_escapes() {
    let context = empty_context();

    let output = render(&context);

    assert!(output.starts_with("Uridim \u{1b}[38;2;78;172;248m"));
    assert!(output.contains("\u{1b}[39m\nProject: /project\n"));
}

#[test]
fn appends_report_after_existing_text() {
    let context = empty_context();
    let mut output = String::from("before\n");

    write_project_context(&mut output, &context);

    assert!(output.starts_with("before\nUridim "));
    assert!(output.ends_with("No project context found.\n"));
}
