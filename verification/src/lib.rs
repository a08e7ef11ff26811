pub mod build_systems;
pub mod candidate;
pub mod discovery;
pub mod discovery_laws;
pub mod ecosystems;
pub mod exclusion;
pub mod framework;
pub mod framework_laws;
pub mod frameworks;
pub mod git;
pub mod infrastructure;
pub mod marker;
pub mod path;
pub mod project_context;
pub mod report;
pub mod vcs;
pub mod views;
