# uridim

Discovers what a software project is made of — version control, language
ecosystems, frameworks, build systems and infrastructure — from the marker
files in and around its directories, and reports it.

Layout:

- `src/` — the verified library.
  - `path.rs`: the path model (`ProjectPath`), its text form and joins.
  - `candidate.rs`: evidence kinds and their labels, and `Candidate`.
  - `discovery.rs`: `Scan`, a search for markers driven one filesystem
    question at a time, upward through ancestors, downward through
    subdirectories, or over a given list; `discovery_laws.rs` proves what
    every run of it keeps, whatever the filesystem answers.
  - `vcs.rs`, `ecosystems.rs`, `build_systems.rs`, `infrastructure.rs`,
    `frameworks.rs`, `marker.rs`, `git.rs`: the marker tables and the
    searches built on them; `framework_laws.rs` proves that the frameworks
    found are the Node.js manifests among the ecosystem finds that declare
    Next.js.
  - `framework.rs`: reading `package.json` manifests for frameworks.
  - `project_context.rs`: grouping candidates by category.
  - `report.rs`: the coloured text report.
- `app/` — the command: answers the searches from the real filesystem,
  parses manifests with `serde_json`, and prints.
- `tests/` — tests run against an in-memory filesystem.
