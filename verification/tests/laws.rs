//! The library's laws, each on concrete values, and the edges the check handles.

use modou::{
    Baseline, BoundaryKind, Constitution, CrateBoundary, CrateSources, DependencyKind, Json,
    ModuleBoundary,
    Outcome, Report, Severity, SourceFile, Violation, Workspace, apply_baseline, check,
    constitution_text, file_module_path, find_package, report_json, severity_label,
    source_manifests,
};

fn violation(target: &str, finding: &str, severity: Severity) -> Violation {
    Violation {
        kind: BoundaryKind::Crate,
        target: target.to_string(),
        rule: "deny external dependencies".to_string(),
        finding: finding.to_string(),
        reason: "stay light".to_string(),
        severity,
        baselined: false,
    }
}

fn app_workspace(files: Vec<SourceFile>) -> Workspace {
    Workspace {
        manifest: "/w/Cargo.toml".to_string(),
        metadata: Ok(r#"{"packages":[{"name":"app","manifest_path":"/w/app/Cargo.toml","dependencies":[
            {"name":"serde","source":"registry+https://github.com/rust-lang/crates.io-index","kind":null},
            {"name":"tokio","source":"registry+https://github.com/rust-lang/crates.io-index","kind":null},
            {"name":"types","source":null,"kind":null},
            {"name":"proptest","source":"registry+https://github.com/rust-lang/crates.io-index","kind":"dev"}
        ]}]}"#
            .to_string()),
        sources: vec![CrateSources {
            manifest_path: "/w/app/Cargo.toml".to_string(),
            files: Some(files),
            unreadable_dir: None,
        }],
    }
}

fn file(components: &[&str], text: &str) -> SourceFile {
    SourceFile {
        components: components.iter().map(|c| c.to_string()).collect(),
        display: format!("/w/app/src/{}", components.join("/")),
        text: Ok(text.to_string()),
    }
}

fn findings(outcome: &Outcome) -> Vec<String> {
    match outcome {
        Outcome::Violations(report) => report.violations.iter().map(|v| v.finding.clone()).collect(),
        Outcome::Clean => Vec::new(),
        other => panic!("expected violations or clean, got {other:?}"),
    }
}

#[test]
fn a_baseline_never_raises_the_exit_code() {
    for severity in [Severity::Enforce, Severity::Warn] {
        let mut report = Report {
            violations: vec![violation("core", "serde", severity), violation("core", "tokio", severity)],
        };
        let before = Outcome::Violations(Report {
            violations: vec![violation("core", "serde", severity), violation("core", "tokio", severity)],
        })
        .exit_code();
        let baseline = Baseline::from_json(
            r#"{"version":1,"violations":[{"target":"core","rule":"deny external dependencies","finding":"serde"}]}"#,
        )
        .unwrap();
        apply_baseline(&mut report, &baseline);
        assert!(report.violations[0].baselined && !report.violations[1].baselined);
        let after = Outcome::Violations(report).exit_code();
        assert!(after <= before);
        assert_eq!(after, if severity == Severity::Enforce { 1 } else { 0 });
    }
}

#[test]
fn a_fresh_baseline_has_no_stale_entries() {
    let report = Report {
        violations: vec![violation("a", "x", Severity::Enforce), violation("b", "y", Severity::Warn)],
    };
    let baseline = Baseline::of(&report);
    assert!(baseline.stale(&report).is_empty());
}

#[test]
fn editing_reason_or_severity_keeps_a_violation_recorded() {
    let recorded = Report { violations: vec![violation("core", "serde", Severity::Enforce)] };
    let baseline = Baseline::of(&recorded);
    let mut edited = violation("core", "serde", Severity::Warn);
    edited.reason = "a reworded reason".to_string();
    assert!(baseline.contains(&edited));
}

#[test]
fn baseline_entries_are_sorted_and_distinct() {
    let report = Report {
        violations: vec![
            violation("b", "x", Severity::Enforce),
            violation("a", "z", Severity::Enforce),
            violation("b", "x", Severity::Warn),
            violation("a", "y", Severity::Enforce),
        ],
    };
    let doc: serde_json::Value = serde_json::from_str(&Baseline::of(&report).to_json()).unwrap();
    let entries: Vec<(String, String)> = doc["violations"]
        .as_array()
        .unwrap()
        .iter()
        .map(|e| (e["target"].as_str().unwrap().to_string(), e["finding"].as_str().unwrap().to_string()))
        .collect();
    assert_eq!(
        entries,
        vec![
            ("a".to_string(), "y".to_string()),
            ("a".to_string(), "z".to_string()),
            ("b".to_string(), "x".to_string()),
        ]
    );
}

#[test]
fn baseline_errors_name_what_is_wrong() {
    assert_eq!(
        Baseline::from_json(r#"{"version":7,"violations":[]}"#).unwrap_err(),
        "unsupported baseline version 7"
    );
    assert_eq!(
        Baseline::from_json(r#"{"version":-3,"violations":[]}"#).unwrap_err(),
        "unsupported baseline version -3"
    );
    assert_eq!(
        Baseline::from_json(r#"{"version":"1","violations":[]}"#).unwrap_err(),
        "baseline is missing a numeric `version`"
    );
    assert_eq!(
        Baseline::from_json(r#"{"version":1,"violations":{}}"#).unwrap_err(),
        "baseline `violations` must be an array"
    );
    assert_eq!(
        Baseline::from_json(r#"{"version":1,"violations":[{"target":"t","rule":"r"}]}"#).unwrap_err(),
        "baseline entry is missing string `finding`"
    );
    assert_eq!(
        Baseline::from_json(r#"{"version":1,"violations":[{"target":1,"rule":"r","finding":"f"}]}"#)
            .unwrap_err(),
        "baseline entry is missing string `target`"
    );
    let unparsable = Baseline::from_json("{").unwrap_err();
    assert_eq!(unparsable, serde_json::from_str::<serde_json::Value>("{").unwrap_err().to_string());
}

#[test]
fn a_rule_reports_exactly_its_offending_dependencies() {
    let deny = Constitution::new("deny").boundary(
        CrateBoundary::crate_("app")
            .deny_external_dependencies()
            .allow_external(&["tokio"])
            .because("only tokio from outside"),
    );
    // `types` is a path dependency and `proptest` a dev one: neither is observed.
    assert_eq!(findings(&check(&deny, &app_workspace(Vec::new()))), vec!["serde"]);

    let forbid = Constitution::new("forbid").boundary(
        CrateBoundary::crate_("app")
            .forbid_dependency_on(&["types", "tokio", "proptest"])
            .because("no types, tokio or proptest"),
    );
    assert_eq!(findings(&check(&forbid, &app_workspace(Vec::new()))), vec!["tokio", "types"]);

    let restrict = Constitution::new("restrict").boundary(
        CrateBoundary::crate_("app")
            .restrict_dependencies_to(&["serde"])
            .because("serde only"),
    );
    let outcome = check(&restrict, &app_workspace(Vec::new()));
    assert_eq!(findings(&outcome), vec!["tokio", "types"]);
    match &outcome {
        Outcome::Violations(report) => {
            let v = &report.violations[0];
            assert_eq!(v.kind, BoundaryKind::Crate);
            assert_eq!(v.target, "app");
            assert_eq!(v.rule, "restrict dependencies to");
            assert_eq!(v.reason, "serde only");
            assert_eq!(v.severity, Severity::Enforce);
            assert!(!v.baselined);
        }
        other => panic!("expected violations, got {other:?}"),
    }
}

#[test]
fn a_module_boundary_reports_exactly_the_forbidden_imports() {
    let files = vec![
        file(&["lib.rs"], "pub mod kernel;\npub mod http;\npub mod httpx;\n"),
        file(&["kernel", "mod.rs"], "mod deep;\nuse crate::http;\nuse crate::httpx::Thing;\n"),
        file(&["kernel", "deep.rs"], "use crate::http::{server::Router, client};\nuse super::super::http::Server;\n"),
        file(&["http.rs"], "use crate::kernel::run;\n"),
    ];
    let constitution = Constitution::new("layers").boundary(
        ModuleBoundary::in_crate("app")
            .module("crate::kernel")
            .must_not_import("crate::http")
            .because("the kernel must not reach the HTTP layer"),
    );
    let outcome = check(&constitution, &app_workspace(files));
    // The governed files are `kernel/mod.rs` and `kernel/deep.rs`; their forbidden
    // imports come once each, in increasing order. `crate::httpx` only shares a
    // prefix and is not beneath `crate::http`.
    assert_eq!(
        findings(&outcome),
        vec![
            "crate::http",
            "crate::http::Server",
            "crate::http::client",
            "crate::http::server::Router",
        ]
    );
    match &outcome {
        Outcome::Violations(report) => {
            assert!(report.violations.iter().all(|v| v.kind == BoundaryKind::Module
                && v.target == "crate::kernel"
                && v.rule == "module must not import"));
        }
        other => panic!("expected violations, got {other:?}"),
    }
}

#[test]
fn no_declared_shape_no_drift() {
    let outcome = check(&Constitution::new("empty"), &app_workspace(Vec::new()));
    assert!(matches!(outcome, Outcome::Clean));
    assert_eq!(outcome.exit_code(), 0);
}

#[test]
fn a_check_exits_2_exactly_when_the_constitution_cannot_be_evaluated() {
    let constitution = Constitution::new("any").boundary(
        CrateBoundary::crate_("app")
            .deny_external_dependencies()
            .because("stay light"),
    );
    let mut unreadable = app_workspace(Vec::new());
    unreadable.metadata = Err("error: manifest path `/w/Cargo.toml` does not exist".to_string());
    match check(&constitution, &unreadable) {
        Outcome::ConstitutionError(message) => assert_eq!(
            message,
            "cannot read target workspace at /w/Cargo.toml: error: manifest path `/w/Cargo.toml` does not exist"
        ),
        other => panic!("expected a constitution error, got {other:?}"),
    }

    let mut garbled = app_workspace(Vec::new());
    garbled.metadata = Ok("not metadata".to_string());
    match check(&constitution, &garbled) {
        Outcome::ConstitutionError(message) => {
            assert!(message.starts_with("cannot read target workspace at /w/Cargo.toml: "), "{message}")
        }
        other => panic!("expected a constitution error, got {other:?}"),
    }

    // A module boundary whose crate reports no manifest path cannot locate `src`.
    let mut no_manifest = app_workspace(Vec::new());
    no_manifest.metadata = Ok(r#"{"packages":[{"name":"app","dependencies":[]}]}"#.to_string());
    let modules = Constitution::new("modules").boundary(
        ModuleBoundary::in_crate("app")
            .module("crate")
            .must_not_import("crate::x")
            .because("no x"),
    );
    match check(&modules, &no_manifest) {
        Outcome::ConstitutionError(message) => assert_eq!(message, "cannot locate src for crate 'app'"),
        other => panic!("expected a constitution error, got {other:?}"),
    }
    let mut no_dir = app_workspace(Vec::new());
    no_dir.sources[0].files = None;
    match check(&modules, &no_dir) {
        Outcome::ConstitutionError(message) => assert_eq!(message, "cannot locate src for crate 'app'"),
        other => panic!("expected a constitution error, got {other:?}"),
    }
    match check(&modules, &app_workspace(Vec::new())) {
        Outcome::ConstitutionError(message) => assert_eq!(
            message,
            "module 'crate' not found in crate 'app' source (file-based modules only)"
        ),
        other => panic!("expected a constitution error, got {other:?}"),
    }

    let missing = Constitution::new("missing").boundary(
        CrateBoundary::crate_("ghost")
            .deny_external_dependencies()
            .because("absent"),
    );
    let outcome = check(&missing, &app_workspace(Vec::new()));
    assert_eq!(outcome.exit_code(), 2);
    match outcome {
        Outcome::ConstitutionError(message) => {
            assert_eq!(message, "target crate 'ghost' not found in the workspace")
        }
        other => panic!("expected a constitution error, got {other:?}"),
    }
}

#[test]
fn file_module_paths_follow_the_file_layout() {
    let path = |components: &[&str]| {
        file_module_path(&components.iter().map(|c| c.to_string()).collect())
    };
    assert_eq!(path(&["lib.rs"]), "crate");
    assert_eq!(path(&["main.rs"]), "crate");
    assert_eq!(path(&["kernel.rs"]), "crate::kernel");
    assert_eq!(path(&["kernel", "mod.rs"]), "crate::kernel");
    assert_eq!(path(&["kernel", "foo.rs"]), "crate::kernel::foo");
    assert_eq!(path(&["a", "b", "c.rs"]), "crate::a::b::c");
    assert_eq!(path(&[]), "crate");
}

#[test]
fn source_manifests_name_the_governed_crates() {
    let constitution = Constitution::new("mixed")
        .boundary(
            CrateBoundary::crate_("app")
                .deny_external_dependencies()
                .because("stay light"),
        )
        .boundary(
            ModuleBoundary::in_crate("app")
                .module("crate::kernel")
                .must_not_import("crate::http")
                .because("layers"),
        )
        .boundary(
            ModuleBoundary::in_crate("app")
                .module("crate::http")
                .must_not_import("crate::kernel")
                .because("no way back"),
        )
        .boundary(
            ModuleBoundary::in_crate("ghost")
                .module("crate")
                .must_not_import("crate::x")
                .because("absent"),
        );
    let metadata = app_workspace(Vec::new()).metadata.unwrap();
    assert_eq!(source_manifests(&constitution, &metadata), vec!["/w/app/Cargo.toml".to_string()]);
    assert!(source_manifests(&constitution, "not json").is_empty());
}

#[test]
fn json_reads_back_what_it_writes() {
    // A repeated key keeps its last value, as `serde_json` reads it.
    let baseline = Baseline::from_json(
        r#"{"version":2,"violations":[],"version":1}"#,
    )
    .expect("the last version is 1");
    assert!(baseline.stale(&Report { violations: Vec::new() }).is_empty());
    // The report is pretty-printed JSON that reads back as the document written.
    let text = report_json(&Outcome::ConstitutionError("line\n\"quoted\" é".to_string()), &[], None);
    assert!(text.contains('\n'), "the rendering is pretty-printed: {text}");
    let again: serde_json::Value = serde_json::from_str(&text).unwrap();
    assert_eq!(again["error"], "line\n\"quoted\" é");
    assert_eq!(again["exit_code"], 2);
    assert!(again["violations"].as_array().unwrap().is_empty());

    let doc = Json::Object(vec![(
        "packages".to_string(),
        Json::Array(vec![
            Json::Object(vec![("name".to_string(), Json::Str("a".to_string()))]),
            Json::Object(vec![("name".to_string(), Json::Str("b".to_string()))]),
            Json::Object(vec![("name".to_string(), Json::Int(3))]),
        ]),
    )]);
    let found = find_package(&doc, "b").expect("b is a package");
    assert_eq!(found.get("name").and_then(Json::as_str), Some("b"));
    assert!(find_package(&doc, "c").is_none());
}

#[test]
fn severity_labels() {
    assert_eq!(severity_label(Severity::Enforce), "enforce");
    assert_eq!(severity_label(Severity::Warn), "warn");
    assert_eq!(Severity::default(), Severity::Enforce);
}

#[test]
fn the_text_projection_is_exact() {
    let constitution = Constitution::new("p")
        .boundary(
            ModuleBoundary::in_crate("app")
                .module("crate::a")
                .must_not_import("crate::b")
                .warn()
                .because("why"),
        );
    assert_eq!(
        constitution_text(&constitution),
        "Constitution: p  (1 boundary)\n\n[warn] module crate::a in app\n  rule:   must not import crate::b\n  reason: why\n"
    );
    let constitution = constitution.boundary(
        CrateBoundary::crate_("core")
            .deny_external_dependencies()
            .because("light"),
    );
    assert_eq!(
        constitution_text(&constitution),
        "Constitution: p  (2 boundaries)\n\n[warn] module crate::a in app\n  rule:   must not import crate::b\n  reason: why\n\n[enforce] crate core\n  rule:   deny external dependencies\n  reason: light\n"
    );
}

#[test]
fn a_boundary_reports_each_forbidden_import_once_in_a_fixed_order() {
    let boundary = || {
        Constitution::new("dedup").boundary(
            ModuleBoundary::in_crate("app")
                .module("crate")
                .must_not_import("crate::x")
                .because("no x"),
        )
    };
    let lib_and_main = vec![
        file(&["lib.rs"], "use crate::x::Y;\nuse crate::x::A;\n"),
        file(&["main.rs"], "use crate::x::Y;\n"),
    ];
    let outcome = check(&boundary(), &app_workspace(lib_and_main));
    assert_eq!(findings(&outcome), vec!["crate::x::A", "crate::x::Y"]);
    // The same files listed in the other order (another directory-read order).
    let reversed = vec![
        file(&["main.rs"], "use crate::x::Y;\n"),
        file(&["lib.rs"], "use crate::x::Y;\nuse crate::x::A;\n"),
    ];
    let again = check(&boundary(), &app_workspace(reversed));
    assert_eq!(findings(&again), findings(&outcome));
}

#[test]
fn an_unreadable_source_directory_is_a_scan_error() {
    let constitution = Constitution::new("dirs").boundary(
        ModuleBoundary::in_crate("app")
            .module("crate")
            .must_not_import("crate::x")
            .because("no x"),
    );
    let mut workspace = app_workspace(vec![file(&["lib.rs"], "pub mod kernel;\n")]);
    workspace.sources[0].unreadable_dir = Some((
        "/w/app/src/kernel".to_string(),
        "Permission denied (os error 13)".to_string(),
    ));
    let outcome = check(&constitution, &workspace);
    assert_eq!(outcome.exit_code(), 2);
    match outcome {
        Outcome::ConstitutionError(message) => assert_eq!(
            message,
            "cannot read governed source directory '/w/app/src/kernel': Permission denied (os error 13)"
        ),
        other => panic!("expected a scan error, got {other:?}"),
    }
}

#[test]
fn an_inline_module_target_has_its_own_error() {
    let governing = |module: &str| {
        Constitution::new("inline").boundary(
            ModuleBoundary::in_crate("app")
                .module(module)
                .must_not_import("crate::x")
                .because("no x"),
        )
    };
    let files = || vec![file(&["lib.rs"], "mod inner {\n    pub mod deeper { pub fn f() {} }\n}\n")];
    match check(&governing("crate::inner::deeper"), &app_workspace(files())) {
        Outcome::ConstitutionError(message) => assert_eq!(
            message,
            "module 'crate::inner::deeper' in crate 'app' is an inline `mod` block; only file-based modules can be governed"
        ),
        other => panic!("expected a constitution error, got {other:?}"),
    }
    match check(&governing("crate::inner2"), &app_workspace(files())) {
        Outcome::ConstitutionError(message) => assert_eq!(
            message,
            "module 'crate::inner2' not found in crate 'app' source (file-based modules only)"
        ),
        other => panic!("expected a constitution error, got {other:?}"),
    }
}

#[test]
fn public_value_types_compare_and_clone() {
    let constitution = Constitution::new("c").boundary(
        CrateBoundary::crate_("app")
            .deny_external_dependencies()
            .because("light"),
    );
    assert_eq!(constitution.clone(), constitution);
    let outcome = check(&constitution, &app_workspace(Vec::new()));
    assert_eq!(outcome.clone(), outcome);
    assert_ne!(outcome, Outcome::Clean);
}

fn backend_workspace() -> Workspace {
    Workspace {
        manifest: "/w/Cargo.toml".to_string(),
        metadata: Ok(r#"{"packages":[
            {"name":"backend","manifest_path":"/w/backend/Cargo.toml","dependencies":[
                {"name":"core","source":null,"kind":null},
                {"name":"types","source":null,"kind":null},
                {"name":"serde","source":"registry+https://github.com/rust-lang/crates.io-index","kind":null},
                {"name":"types","source":null,"kind":"dev"}
            ]},
            {"name":"core","manifest_path":"/w/core/Cargo.toml","dependencies":[]},
            {"name":"types","manifest_path":"/w/types/Cargo.toml","dependencies":[]}
        ]}"#
            .to_string()),
        sources: Vec::new(),
    }
}

#[test]
fn the_workspace_rule_governs_only_workspace_dependencies() {
    let restricted = Constitution::new("workspace").boundary(
        CrateBoundary::crate_("backend")
            .restrict_workspace_dependencies_to(&["core"])
            .because("a backend may depend on only the core workspace crate"),
    );
    let outcome = check(&restricted, &backend_workspace());
    assert_eq!(findings(&outcome), vec!["types"]);
    match &outcome {
        Outcome::Violations(report) => {
            assert_eq!(report.violations[0].rule, "restrict workspace dependencies to");
        }
        other => panic!("expected violations, got {other:?}"),
    }
    assert!(constitution_text(&restricted).contains("restrict workspace dependencies to: core"));

    let leaf = Constitution::new("leaf").boundary(
        CrateBoundary::crate_("backend")
            .forbid_all_workspace_dependencies()
            .because("leaf must not depend on any other workspace crate"),
    );
    assert_eq!(findings(&check(&leaf, &backend_workspace())), vec!["core", "types"]);
    assert!(constitution_text(&leaf).contains("restrict workspace dependencies to nothing"));
}

#[test]
fn a_rule_can_observe_the_dev_dependency_table() {
    let dev = Constitution::new("dev").boundary(
        CrateBoundary::crate_("backend")
            .forbid_dependency_on(&["types"])
            .dependency_kind(DependencyKind::Dev)
            .because("no types in tests"),
    );
    assert_eq!(findings(&check(&dev, &backend_workspace())), vec!["types"]);
    assert!(constitution_text(&dev).contains("forbid dependency on: types (dev dependencies)"));
    let doc: serde_json::Value =
        serde_json::from_str(&modou::constitution_json(&dev)).expect("constitution JSON");
    assert_eq!(doc["boundaries"][0]["dependency_kind"], "dev");

    let build = Constitution::new("build").boundary(
        CrateBoundary::crate_("backend")
            .forbid_dependency_on(&["types"])
            .dependency_kind(DependencyKind::Build)
            .because("no types at build time"),
    );
    assert!(matches!(check(&build, &backend_workspace()), Outcome::Clean));

    let normal = Constitution::new("normal").boundary(
        CrateBoundary::crate_("backend")
            .deny_external_dependencies()
            .because("light"),
    );
    let doc: serde_json::Value =
        serde_json::from_str(&modou::constitution_json(&normal)).expect("constitution JSON");
    assert!(doc["boundaries"][0].get("dependency_kind").is_none());
    assert_eq!(findings(&check(&normal, &backend_workspace())), vec!["serde"]);
}

#[test]
fn a_module_allowlist_reports_every_import_outside_it() {
    let files = vec![
        file(&["lib.rs"], "pub mod kernel;\npub mod types;\npub mod http;\n"),
        file(
            &["kernel", "mod.rs"],
            "use crate::types::Id;\nuse crate::http::Server;\nuse self::inner::X;\nuse crate::kernel::deep::Y;\n",
        ),
        file(&["types.rs"], "pub struct Id;\n"),
        file(&["http.rs"], "use crate::kernel::run;\n"),
    ];
    let constitution = Constitution::new("allowlist").boundary(
        ModuleBoundary::in_crate("app")
            .module("crate::kernel")
            .restrict_imports_to(&["crate::types"])
            .because("the kernel may reach only the shared types module"),
    );
    let outcome = check(&constitution, &app_workspace(files));
    assert_eq!(findings(&outcome), vec!["crate::http::Server"]);
    match &outcome {
        Outcome::Violations(report) => {
            assert_eq!(report.violations[0].rule, "module imports restricted to");
            assert_eq!(report.violations[0].target, "crate::kernel");
        }
        other => panic!("expected violations, got {other:?}"),
    }
    let text = constitution_text(&constitution);
    assert!(text.contains("may import only: crate::types"), "{text}");
    let doc: serde_json::Value =
        serde_json::from_str(&modou::constitution_json(&constitution)).expect("constitution JSON");
    assert_eq!(doc["boundaries"][0]["only"][0], "crate::types");
}

#[test]
fn an_inbound_rule_names_the_importers_that_reach_in() {
    let files = vec![
        file(&["lib.rs"], "pub mod internal;\npub mod http;\npub mod kernel;\n"),
        file(&["internal.rs"], "pub struct Secret;\n"),
        file(&["http.rs"], "pub mod server;\nuse crate::internal::Secret;\n"),
        file(&["http", "server.rs"], "use crate::internal::Secret;\nuse super::x;\n"),
        file(&["kernel.rs"], "use crate::internal::Secret;\n"),
    ];
    let constitution = Constitution::new("inbound").boundary(
        ModuleBoundary::in_crate("app")
            .module("crate::internal")
            .must_not_be_imported_by("crate::http")
            .because("internal is private to the core"),
    );
    let outcome = check(&constitution, &app_workspace(files));
    // The importers under `crate::http` that reach in are named; `crate::kernel`
    // is not governed by this boundary.
    assert_eq!(findings(&outcome), vec!["crate::http", "crate::http::server"]);
    match &outcome {
        Outcome::Violations(report) => {
            assert_eq!(report.violations.len(), 2);
            assert_eq!(report.violations[0].rule, "module must not be imported by");
            assert_eq!(report.violations[0].target, "crate::internal");
        }
        other => panic!("expected violations, got {other:?}"),
    }
    assert!(constitution_text(&constitution).contains("must not be imported by crate::http"));
    let doc: serde_json::Value =
        serde_json::from_str(&modou::constitution_json(&constitution)).expect("constitution JSON");
    assert_eq!(doc["boundaries"][0]["importer"], "crate::http");
}

#[test]
fn a_module_rule_that_could_never_react_is_a_constitution_error() {
    let on_crate = Constitution::new("never").boundary(
        ModuleBoundary::in_crate("app")
            .module("crate")
            .restrict_imports_to(&["crate::types"])
            .because("pointless"),
    );
    match check(&on_crate, &app_workspace(vec![file(&["lib.rs"], "")])) {
        Outcome::ConstitutionError(message) => assert_eq!(
            message,
            "a 'module imports restricted to' boundary on 'crate' can never react: every internal module is beneath crate"
        ),
        other => panic!("expected a constitution error, got {other:?}"),
    }
    let inbound = Constitution::new("never").boundary(
        ModuleBoundary::in_crate("app")
            .module("crate")
            .must_not_be_imported_by("crate::http")
            .because("pointless"),
    );
    assert_eq!(check(&inbound, &app_workspace(vec![file(&["lib.rs"], "")])).exit_code(), 2);
}

#[test]
fn the_module_fixtures_observe_no_macro_generated_or_external_import() {
    let governing = |forbidden: &str| {
        Constitution::new("fixtures").boundary(
            ModuleBoundary::in_crate("app")
                .module("crate")
                .must_not_import(forbidden)
                .because("fixture"),
        )
    };
    let macro_rules = "// The only `use crate::ghost::…` is inside a macro_rules! body (never invoked).\n\
        macro_rules! make {\n    () => {\n        use crate::ghost::Thing;\n    };\n}\n\n\
        pub mod ghost {\n    pub struct Thing;\n}\n";
    let outcome = check(&governing("crate::ghost"), &app_workspace(vec![file(&["lib.rs"], macro_rules)]));
    assert!(matches!(outcome, Outcome::Clean), "{outcome:?}");

    let invocation = "with_imports! {\n    use crate::ghost::Thing;\n}\n\npub mod ghost {\n    pub struct Thing;\n}\n";
    let outcome = check(&governing("crate::ghost"), &app_workspace(vec![file(&["lib.rs"], invocation)]));
    assert!(matches!(outcome, Outcome::Clean), "{outcome:?}");

    // A bare `use serde::…` in the crate root with no `mod serde;` names the
    // external crate, even beside a stray `src/serde.rs`.
    let orphan = vec![
        file(&["lib.rs"], "use serde::Deserialize;\n\npub struct X;\n"),
        file(&["serde.rs"], "pub struct Deserialize;\n"),
    ];
    let outcome = check(&governing("crate::serde"), &app_workspace(orphan));
    assert!(matches!(outcome, Outcome::Clean), "{outcome:?}");
}

#[test]
fn only_files_reachable_through_mod_declarations_are_governed() {
    let constitution = Constitution::new("reachable").boundary(
        ModuleBoundary::in_crate("app")
            .module("crate")
            .must_not_import("crate::x")
            .because("no x"),
    );
    // `stray.rs` is declared by no `mod`, so Rust never compiles it.
    let files = vec![
        file(&["lib.rs"], "pub mod kernel;\npub mod x;\n"),
        file(&["kernel", "mod.rs"], "pub mod deep;\nuse crate::x::A;\n"),
        file(&["kernel", "deep.rs"], "use crate::x::B;\n"),
        file(&["kernel", "lost.rs"], "use crate::x::C;\n"),
        file(&["stray.rs"], "use crate::x::D;\n"),
        file(&["x.rs"], "pub struct A;\n"),
    ];
    let outcome = check(&constitution, &app_workspace(files));
    assert_eq!(findings(&outcome), vec!["crate::x::A", "crate::x::B"]);
}
