//! Modou governs itself with its own reaction: its invariants are declared as a
//! real constitution and checked against Modou's own package as Cargo reports it
//! (its manifest, its one external dependency, and the `use` declarations of its
//! modules).

use modou::{Constitution, CrateBoundary, CrateSources, ModuleBoundary, Outcome, SourceFile, Workspace, check};

const MANIFEST: &str = "/modou/crates/modou/Cargo.toml";

fn file(components: &[&str], text: &str) -> SourceFile {
    SourceFile {
        components: components.iter().map(|c| c.to_string()).collect(),
        display: format!("/modou/crates/modou/src/{}", components.join("/")),
        text: Ok(text.to_string()),
    }
}

/// Modou's package: `serde_json` is its only dependency; the functional core
/// (`engine`) imports std and `serde_json` only, while the imperative shell
/// (`runner`) imports the core.
fn modou_workspace() -> Workspace {
    let metadata = format!(
        r#"{{"packages":[{{"name":"modou","version":"0.1.0","manifest_path":"{MANIFEST}","dependencies":[{{"name":"serde_json","source":"registry+https://github.com/rust-lang/crates.io-index","req":"^1","kind":null,"optional":false}}]}}],"version":1}}"#
    );
    let lib = "//! Modou v0.1 — Rust-native reactive governance.\n\
               mod engine;\nmod runner;\n\
               pub use engine::{Boundary, Constitution, Outcome, check};\n\
               pub use runner::run;\n\
               pub mod prelude {\n    pub use super::{Boundary, Constitution, Outcome, check, run};\n}\n";
    let engine = "//! The functional core. The imperative shell lives in the sibling `runner`\n\
                  //! module, which this core must not import (use crate::runner is forbidden).\n\
                  use std::path::{Path, PathBuf};\n\
                  use std::process::Command;\n\
                  use serde_json::Value;\n\
                  pub fn check() {}\n\
                  #[cfg(test)]\nmod tests {\n    use super::*;\n}\n";
    let runner = "use std::path::PathBuf;\n\
                  use std::process::ExitCode;\n\
                  use crate::engine::{Baseline, Constitution, Outcome, check, report_json};\n\
                  pub fn run() {}\n";
    let main = "use std::process::ExitCode;\nmod constitution;\nuse constitution::constitution;\n";
    Workspace {
        manifest: MANIFEST.to_string(),
        metadata: Ok(metadata),
        sources: vec![CrateSources {
            manifest_path: MANIFEST.to_string(),
            files: Some(vec![
                file(&["lib.rs"], lib),
                file(&["engine.rs"], engine),
                file(&["runner.rs"], runner),
                file(&["main.rs"], main),
            ]),
            unreadable_dir: None,
        }],
    }
}

/// Modou's self-constitution — the law Modou enforces on itself: it stays
/// dependency-light, and the functional core does not import the imperative shell.
fn modou_constitution() -> Constitution {
    Constitution::new("modou")
        .boundary(
            CrateBoundary::crate_("modou")
                .restrict_dependencies_to(&["serde_json"])
                .because(
                    "Modou stays dependency-light: serde_json is the only external \
                     dependency (no syn / proc-macro2, no heavy graph or runtime crates)",
                ),
        )
        .boundary(
            ModuleBoundary::in_crate("modou")
                .module("crate::engine")
                .must_not_import("crate::runner")
                .because("the functional core must not depend on the imperative shell (FCIS)"),
        )
}

#[test]
fn modou_governs_itself() {
    let outcome = check(&modou_constitution(), &modou_workspace());
    assert!(
        matches!(outcome, Outcome::Clean),
        "Modou's self-constitution drifted: {outcome:?}"
    );
    assert_eq!(outcome.exit_code(), 0);
}

#[test]
fn a_drifted_core_is_caught() {
    let mut workspace = modou_workspace();
    if let Some(files) = &mut workspace.sources[0].files {
        files[1].text = Ok("use crate::runner::run;\n".to_string());
    }
    let outcome = check(&modou_constitution(), &workspace);
    match &outcome {
        Outcome::Violations(report) => {
            assert_eq!(report.violations.len(), 1);
            assert_eq!(report.violations[0].target, "crate::engine");
            assert_eq!(report.violations[0].finding, "crate::runner::run");
            assert_eq!(report.violations[0].rule, "module must not import");
        }
        other => panic!("expected the core's import of the shell to be caught, got {other:?}"),
    }
    assert_eq!(outcome.exit_code(), 1);
}
