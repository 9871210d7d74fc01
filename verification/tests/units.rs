//! The baseline, the JSON and text projections, and the unreadable-file scan
//! error, exercised on hand-built values.

use modou::{
    Baseline, BoundaryKind, Constitution, CrateBoundary, CrateSources, ModuleBoundary, Outcome,
    Report, Severity, SourceFile, Violation, ViolationId, Workspace, apply_baseline, check,
    constitution_json, constitution_text, report_json,
};

fn one_enforce_violation() -> Report {
    Report {
        violations: vec![Violation {
            kind: BoundaryKind::Crate,
            target: "core".to_string(),
            rule: "deny external dependencies".to_string(),
            finding: "serde".to_string(),
            reason: "core must stay dependency-light".to_string(),
            severity: Severity::Enforce,
            baselined: false,
        }],
    }
}

fn parse(json: &str) -> serde_json::Value {
    serde_json::from_str(json).expect("valid JSON")
}

#[test]
fn unreadable_governed_file_is_a_scan_error() {
    let metadata = r#"{"packages":[{"name":"x","manifest_path":"/tmp/modou-unreadable/Cargo.toml","dependencies":[]}]}"#;
    let workspace = Workspace {
        manifest: "/tmp/modou-unreadable/Cargo.toml".to_string(),
        metadata: Ok(metadata.to_string()),
        sources: vec![CrateSources {
            manifest_path: "/tmp/modou-unreadable/Cargo.toml".to_string(),
            files: Some(vec![SourceFile {
                components: vec!["lib.rs".to_string()],
                display: "/tmp/modou-unreadable/src/lib.rs".to_string(),
                text: Err("Permission denied (os error 13)".to_string()),
            }]),
            unreadable_dir: None,
        }],
    };
    let constitution = Constitution::new("unreadable").boundary(
        ModuleBoundary::in_crate("x")
            .module("crate")
            .must_not_import("crate::forbidden")
            .because("the test module must not import the forbidden module"),
    );
    let outcome = check(&constitution, &workspace);
    assert!(
        matches!(outcome, Outcome::ConstitutionError(_)),
        "an unreadable governed file must be a scan error, not a silent skip"
    );
    match outcome {
        Outcome::ConstitutionError(message) => assert_eq!(
            message,
            "cannot read governed source file '/tmp/modou-unreadable/src/lib.rs': Permission denied (os error 13)"
        ),
        _ => unreachable!(),
    }
}

#[test]
fn baseline_round_trips_through_json() {
    let report = one_enforce_violation();
    let json = Baseline::of(&report).to_json();
    let parsed = Baseline::from_json(&json).expect("a written baseline parses");
    assert!(
        parsed.contains(&report.violations[0]),
        "round-trip must preserve the violation identity"
    );
}

#[test]
fn from_json_rejects_malformed_and_unknown_version() {
    assert!(Baseline::from_json("not json").is_err());
    assert!(Baseline::from_json(r#"{"version":2,"violations":[]}"#).is_err());
    assert!(
        Baseline::from_json(r#"{"violations":[]}"#).is_err(),
        "a missing version must be an error, not a silent empty baseline"
    );
}

#[test]
fn a_baselined_enforce_violation_does_not_fail() {
    let mut report = one_enforce_violation();
    let baseline = Baseline::of(&report);
    apply_baseline(&mut report, &baseline);
    assert!(report.violations[0].baselined);
    assert_eq!(
        Outcome::Violations(report).exit_code(),
        0,
        "a fully baselined run must not fail"
    );
}

#[test]
fn a_new_enforce_violation_fails_against_a_baseline() {
    let baseline = Baseline::from_json(
        r#"{"version":1,"violations":[{"target":"core","rule":"deny external dependencies","finding":"other"}]}"#,
    )
    .unwrap();
    let mut report = one_enforce_violation();
    apply_baseline(&mut report, &baseline);
    assert!(
        !report.violations[0].baselined,
        "serde is not in the baseline"
    );
    assert_eq!(Outcome::Violations(report).exit_code(), 1);
}

#[test]
fn stale_finds_entries_with_no_current_match() {
    let report = one_enforce_violation();
    let baseline = Baseline::from_json(
        r#"{"version":1,"violations":[{"target":"core","rule":"deny external dependencies","finding":"gone"}]}"#,
    )
    .unwrap();
    let stale = baseline.stale(&report);
    assert_eq!(stale.len(), 1);
    assert_eq!(stale[0].finding, "gone");
}

#[test]
fn report_json_projects_a_violation_with_its_kind() {
    let json = report_json(&Outcome::Violations(one_enforce_violation()), &[], None);
    let doc = parse(&json);
    assert_eq!(doc["outcome"], "violations");
    assert_eq!(doc["exit_code"], 1);
    let violation = &doc["violations"][0];
    assert_eq!(violation["kind"], "crate");
    assert_eq!(violation["finding"], "serde");
    assert_eq!(violation["severity"], "enforce");
    assert_eq!(violation["baselined"], false);
    // `reason` is the repair hint; there is no separate field.
    assert!(violation["reason"].as_str().is_some_and(|r| !r.is_empty()));
    assert!(doc.get("repair_hint").is_none());
}

#[test]
fn report_json_renders_clean_and_constitution_error() {
    let clean = parse(&report_json(&Outcome::Clean, &[], None));
    assert_eq!(clean["outcome"], "clean");
    assert_eq!(clean["exit_code"], 0);
    assert_eq!(clean["violations"].as_array().unwrap().len(), 0);

    let error = parse(&report_json(
        &Outcome::ConstitutionError("boom".into()),
        &[],
        None,
    ));
    assert_eq!(error["outcome"], "constitution_error");
    assert_eq!(error["exit_code"], 2);
    assert_eq!(error["error"], "boom");
}

#[test]
fn report_json_reflects_baseline_and_stale_in_gate() {
    let mut report = one_enforce_violation();
    let baseline = Baseline::of(&report);
    apply_baseline(&mut report, &baseline);
    // A baseline entry that no current violation matches is stale.
    let stale = vec![ViolationId {
        target: "core".to_string(),
        rule: "deny external dependencies".to_string(),
        finding: "gone".to_string(),
    }];
    let doc = parse(&report_json(&Outcome::Violations(report), &stale, None));
    assert_eq!(doc["exit_code"], 0, "a fully baselined run does not fail");
    assert_eq!(doc["violations"][0]["baselined"], true);
    assert_eq!(doc["stale_baseline"][0]["finding"], "gone");
}

fn mixed_constitution() -> Constitution {
    Constitution::new("my-project")
        .boundary(
            CrateBoundary::crate_("my-core")
                .deny_external_dependencies()
                .allow_external(&["serde"])
                .because("my-core must stay dependency-light"),
        )
        .boundary(
            CrateBoundary::crate_("my-core")
                .forbid_dependency_on(&["my-adapters"])
                .because("the core must not depend on adapters"),
        )
        .boundary(
            ModuleBoundary::in_crate("my-app")
                .module("crate::domain")
                .must_not_import("crate::http")
                .warn()
                .because("the domain must not import the HTTP layer"),
        )
}

#[test]
fn constitution_text_projects_every_boundary_with_its_parameters() {
    let text = constitution_text(&mixed_constitution());
    assert!(
        text.contains("Constitution: my-project  (3 boundaries)"),
        "{text}"
    );
    assert!(text.contains("crate my-core"), "{text}");
    assert!(
        text.contains("deny external dependencies (allow: serde)"),
        "{text}"
    );
    assert!(text.contains("forbid dependency on: my-adapters"), "{text}");
    assert!(text.contains("module crate::domain in my-app"), "{text}");
    assert!(text.contains("must not import crate::http"), "{text}");
    // Severity and reason both surface.
    assert!(
        text.contains("[warn]") && text.contains("[enforce]"),
        "{text}"
    );
    assert!(
        text.contains("the domain must not import the HTTP layer"),
        "{text}"
    );
}

#[test]
fn constitution_json_projects_boundaries_with_kinds_and_parameters() {
    let json = constitution_json(&mixed_constitution());
    let doc = parse(&json);
    assert_eq!(doc["constitution"], "my-project");
    let boundaries = doc["boundaries"].as_array().expect("array");
    assert_eq!(boundaries.len(), 3);

    // Crate boundary with an allowlist.
    assert_eq!(boundaries[0]["kind"], "crate");
    assert_eq!(boundaries[0]["target"], "my-core");
    assert_eq!(boundaries[0]["rule"], "deny external dependencies");
    assert_eq!(boundaries[0]["severity"], "enforce");
    assert_eq!(boundaries[0]["allowed"][0], "serde");

    // Forbid-dependency-on carries its crate list.
    assert_eq!(boundaries[1]["rule"], "forbid dependency on");
    assert_eq!(boundaries[1]["crates"][0], "my-adapters");

    // Module boundary: target is the module path (report convention), plus crate
    // and forbidden import.
    assert_eq!(boundaries[2]["kind"], "module");
    assert_eq!(boundaries[2]["target"], "crate::domain");
    assert_eq!(boundaries[2]["crate"], "my-app");
    assert_eq!(boundaries[2]["forbidden"], "crate::http");
    assert_eq!(boundaries[2]["severity"], "warn");
}

#[test]
fn an_empty_constitution_projects_cleanly() {
    let constitution = Constitution::new("fresh");
    let text = constitution_text(&constitution);
    assert!(
        text.contains("Constitution: fresh  (0 boundaries)"),
        "{text}"
    );
    let doc = parse(&constitution_json(&constitution));
    assert_eq!(doc["boundaries"].as_array().unwrap().len(), 0);
}

#[test]
fn restrict_to_projects_its_allowlist() {
    let constitution = Constitution::new("p")
        .boundary(
            CrateBoundary::crate_("a")
                .restrict_dependencies_to(&["serde", "types"])
                .because("a may depend on only serde and types"),
        )
        .boundary(
            CrateBoundary::crate_("b")
                .restrict_dependencies_to(&[])
                .because("b must depend on nothing"),
        );

    let text = constitution_text(&constitution);
    assert!(
        text.contains("restrict dependencies to: serde, types"),
        "{text}"
    );
    assert!(text.contains("restrict dependencies to nothing"), "{text}");

    let doc = parse(&constitution_json(&constitution));
    assert_eq!(doc["boundaries"][0]["rule"], "restrict dependencies to");
    // A distinct key (`only`, not deny-external's `allowed`) for the closed set.
    assert_eq!(doc["boundaries"][0]["only"][0], "serde");
    assert!(doc["boundaries"][0]["allowed"].is_null());
    // The empty allowlist is still emitted, as `[]`.
    assert_eq!(doc["boundaries"][1]["only"].as_array().unwrap().len(), 0);
}
